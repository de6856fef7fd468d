//! Manifest validation and task-graph planning for one root project.

use vstd::prelude::*;

pub mod error;
pub mod graph;
pub mod matrix;
pub mod planned;
pub mod promises;
pub mod suggest;
pub mod validate;

use crate::config::{config_path, MonoConfig, PipelineConfig, TaskConfig};
use crate::map::{keys, lookup, TextMap};
use crate::path::join_path;
use crate::text::{copy_texts, holds, same, texts};
use error::{ids_of, node_ids, ProjectError, ProjectFault, TaskNode};
use graph::{bad_reference, cycle_path, dependencies, depth_limit, instance_names, is_chain, is_closed};
use graph::{is_waiting_chain, lemma_chain_bound, lemma_chain_push, lemma_mentioned_is_closed};
use graph::{lemma_push_waiting, lemma_refs_error_stays, lemma_root_error_stays};
use graph::{lemma_visited_error_stays, mentioned, missing_task, resolved_ref, resolved_refs, root_ids};
use graph::{root_set, task_of, visited, visited_all, with_ids, IdSet, Tasks};
use matrix::{base_name, base_task_name, format_task_instance, instance_list};
use matrix::matrix_instances;
use matrix::{task_dimensions, text_entries, validate_matrix_instance};
use planned::{PlannedTask, PlannedTaskView};
use suggest::{closest, closest_name};
use validate::{directory_problem, has_instance_mark, identifier_problem, instance_mark};
use validate::{reference_problem, schema_problem, task_problem, validate_identifier, validate_schema};
use validate::{validate_task_config, validate_task_directory, validate_task_reference, Directories};
use validate::Resolution;

verus! {

/// A complete root project.
#[derive(Debug, Clone, PartialEq, Eq)]
pub struct Project {
    pub root: String,
    pub name: String,
    pub default_pipeline: String,
    pub pipelines: TextMap<PipelineConfig>,
    pub tasks: TextMap<TaskConfig>,
}

/// What a `Project` says.
pub struct ProjectView {
    pub root: Seq<char>,
    pub name: Seq<char>,
    pub default_pipeline: Seq<char>,
    pub pipelines: Pipelines,
    pub tasks: Tasks,
}

impl View for Project {
    type V = ProjectView;

    open spec fn view(&self) -> ProjectView {
        ProjectView {
            root: self.root@,
            name: self.name@,
            default_pipeline: self.default_pipeline@,
            pipelines: self.pipelines@,
            tasks: self.tasks@,
        }
    }
}

/// The pipelines of a project by name.
pub type Pipelines = Seq<(Seq<char>, PipelineConfig)>;

/// The fault for a pipeline that does not exist.
pub open spec fn unknown_pipeline(pipelines: Pipelines, name: Seq<char>) -> ProjectFault {
    ProjectFault::UnknownPipeline { name, suggestion: closest(name, keys(pipelines)) }
}

/// The names to plan for: the requested tasks, or else those of the pipeline.
pub open spec fn requested_names(
    project: ProjectView,
    pipeline: Option<Seq<char>>,
    requested: Seq<Seq<char>>,
) -> Result<Seq<Seq<char>>, ProjectFault> {
    if requested.len() > 0 {
        Ok(requested)
    } else {
        let name = chosen_pipeline(project, pipeline);
        match lookup(project.pipelines, name) {
            None => Err(unknown_pipeline(project.pipelines, name)),
            Some(config) => if config.tasks@.len() == 0 {
                Err(
                    ProjectFault::InvalidProject {
                        message: "the selected pipeline has no tasks"@,
                    },
                )
            } else {
                Ok(texts(config.tasks@))
            },
        }
    }
}

/// The pipeline that is meant.
pub open spec fn chosen_pipeline(project: ProjectView, pipeline: Option<Seq<char>>) -> Seq<char> {
    match pipeline {
        Some(name) => name,
        None => project.default_pipeline,
    }
}

/// The tasks of a plan, dependencies first, without the finalizers.
pub open spec fn planned_ids(
    project: ProjectView,
    pipeline: Option<Seq<char>>,
    requested: Seq<Seq<char>>,
) -> Result<Seq<Seq<char>>, ProjectFault> {
    match requested_names(project, pipeline, requested) {
        Err(fault) => Err(fault),
        Ok(names) => match root_set(project.tasks, names) {
            Err(fault) => Err(fault),
            Ok(roots) => visited_all(
                project.tasks,
                keys(roots),
                seq![],
                seq![],
                depth_limit(project.tasks),
            ),
        },
    }
}

/// A plan order, and the instances that the finalizers named.
pub struct FinalizedOrder {
    pub order: Seq<Seq<char>>,
    pub roots: Seq<Seq<char>>,
}

/// `order` extended by the finalizers `names`.
pub open spec fn finalized(tasks: Tasks, names: Seq<Seq<char>>, order: Seq<Seq<char>>) -> Result<
    FinalizedOrder,
    ProjectFault,
>
    decreases names.len(),
{
    if names.len() == 0 {
        Ok(FinalizedOrder { order, roots: seq![] })
    } else {
        match finalized(tasks, names.drop_last(), order) {
            Err(fault) => Err(fault),
            Ok(earlier) => match root_ids(tasks, names.last()) {
                Err(fault) => Err(fault),
                Ok(ids) => match visited_all(
                    tasks,
                    ids,
                    earlier.order,
                    seq![],
                    depth_limit(tasks),
                ) {
                    Err(fault) => Err(fault),
                    Ok(longer) => Ok(
                        FinalizedOrder { order: longer, roots: earlier.roots + ids },
                    ),
                },
            },
        }
    }
}

/// The tasks `order[from..]`, each as it will run. A task is a finalizer when
/// the finalizers named it, or only they need it: then it stands at or behind
/// `normal`.
pub open spec fn planned_tasks(
    project: ProjectView,
    directories: Seq<(Seq<char>, Resolution)>,
    plan: FinalizedOrder,
    normal: nat,
    count: nat,
) -> Result<Seq<PlannedTaskView>, ProjectFault>
    decreases count,
{
    if count == 0 {
        Ok(seq![])
    } else {
        match planned_tasks(project, directories, plan, normal, (count - 1) as nat) {
            Err(fault) => Err(fault),
            Ok(earlier) => {
                let id = plan.order[count - 1];
                match planned::planned_task(
                    project,
                    directories,
                    id,
                    count - 1 >= normal || plan.roots.contains(id),
                ) {
                    Err(fault) => Err(fault),
                    Ok(task) => Ok(earlier.push(task)),
                }
            },
        }
    }
}

/// The plan for a pipeline or for requested tasks.
pub open spec fn plan_of(
    project: ProjectView,
    directories: Seq<(Seq<char>, Resolution)>,
    pipeline: Option<Seq<char>>,
    requested: Seq<Seq<char>>,
) -> Result<Seq<PlannedTaskView>, ProjectFault> {
    match planned_ids(project, pipeline, requested) {
        Err(fault) => Err(fault),
        Ok(order) => {
            let names = if requested.len() > 0 {
                seq![]
            } else {
                texts(lookup(project.pipelines, chosen_pipeline(project, pipeline))->0.finally@)
            };
            match finalized(project.tasks, names, order) {
                Err(fault) => Err(fault),
                Ok(plan) => planned_tasks(
                    project,
                    directories,
                    plan,
                    order.len(),
                    plan.order.len(),
                ),
            }
        },
    }
}

/// The dependencies of each of `order[..count]`.
pub open spec fn edges_of(tasks: Tasks, order: Seq<Seq<char>>, count: nat) -> Result<
    Seq<(Seq<char>, Seq<Seq<char>>)>,
    ProjectFault,
>
    decreases count,
{
    if count == 0 {
        Ok(seq![])
    } else {
        match edges_of(tasks, order, (count - 1) as nat) {
            Err(fault) => Err(fault),
            Ok(earlier) => match dependencies(tasks, order[count - 1]) {
                Err(fault) => Err(fault),
                Ok(needed) => Ok(earlier.push((order[count - 1], needed))),
            },
        }
    }
}

/// What a graph says.
pub open spec fn graph_view(edges: Seq<(TaskNode, Vec<TaskNode>)>) -> Seq<
    (Seq<char>, Seq<Seq<char>>),
> {
    edges.map_values(|e: (TaskNode, Vec<TaskNode>)| (e.0.id@, node_ids(e.1@)))
}

// ---------------------------------------------------------------------------
// Loading
// ---------------------------------------------------------------------------
/// The first of `count` problems.
pub open spec fn first_problem<F>(
    count: nat,
    problem: spec_fn(int) -> Option<F>,
) -> Option<F>
    decreases count,
{
    if count == 0 {
        None
    } else {
        match first_problem((count - 1) as nat, problem) {
            Some(fault) => Some(fault),
            None => problem(count - 1),
        }
    }
}

pub proof fn lemma_first_problem<F>(count: nat, problem: spec_fn(int) -> Option<F>, k: nat)
    requires
        k < count,
        first_problem(k, problem) is None,
        problem(k as int) is Some,
    ensures
        first_problem(count, problem) == problem(k as int),
    decreases count,
{
    if k + 1 < count {
        lemma_first_problem((count - 1) as nat, problem, k);
    }
}

/// The complaint about the name of a pipeline.
pub open spec fn pipeline_name_problem(path: Seq<char>, pipelines: Pipelines) -> spec_fn(
    int,
) -> Option<ProjectFault> {
    |i: int| identifier_problem(path, "pipeline name"@, pipelines[i].0)
}

/// The complaint about one reference of a pipeline.
pub open spec fn pipeline_reference_problem(
    path: Seq<char>,
    name: Seq<char>,
    references: Seq<Seq<char>>,
) -> spec_fn(int) -> Option<ProjectFault> {
    |i: int|
        match reference_problem(references[i]) {
            Some(message) => Some(
                ProjectFault::InvalidManifest {
                    path,
                    message: "pipeline '"@ + name + "': "@ + message,
                },
            ),
            None => None,
        }
}

/// The complaint about what a pipeline lists.
pub open spec fn pipeline_problem(path: Seq<char>, pipelines: Pipelines) -> spec_fn(
    int,
) -> Option<ProjectFault> {
    |i: int|
        {
            let (name, config) = pipelines[i];
            let references = texts(config.tasks@) + texts(config.finally@);
            if references.len() == 0 {
                Some(
                    ProjectFault::InvalidProject {
                        message: "pipeline '"@ + name + "' has no tasks"@,
                    },
                )
            } else {
                first_problem(
                    references.len(),
                    pipeline_reference_problem(path, name, references),
                )
            }
        }
}

/// The complaint about one task.
pub open spec fn declared_task_problem(
    path: Seq<char>,
    directories: Seq<(Seq<char>, Resolution)>,
    root: Seq<char>,
    tasks: Tasks,
) -> spec_fn(int) -> Option<ProjectFault> {
    |i: int|
        match task_problem(path, tasks[i].0, tasks[i].1) {
            Some(fault) => Some(fault),
            None => directory_problem(directories, root, tasks[i].0, tasks[i].1),
        }
}

/// The complaint about the name of a task in the graph.
pub open spec fn graph_name_problem(tasks: Tasks) -> spec_fn(int) -> Option<ProjectFault> {
    |i: int|
        if tasks[i].0.len() == 0 || has_instance_mark(tasks[i].0) {
            Some(ProjectFault::InvalidTaskName { task: tasks[i].0 })
        } else {
            None
        }
}

/// The complaint about the references that a task makes.
pub open spec fn graph_reference_problem(tasks: Tasks) -> spec_fn(int) -> Option<ProjectFault> {
    |i: int|
        match resolved_refs(tasks, tasks[i].0, texts(tasks[i].1.depends_on@)) {
            Err(fault) => Some(fault),
            Ok(_) => None,
        }
}

/// The complaint about the graph as a whole.
pub open spec fn graph_problem(tasks: Tasks) -> Option<ProjectFault> {
    match first_problem(tasks.len(), graph_name_problem(tasks)) {
        Some(fault) => Some(fault),
        None => first_problem(tasks.len(), graph_reference_problem(tasks)),
    }
}

/// The complaint about the plan of a pipeline.
pub open spec fn pipeline_plan_problem(
    project: ProjectView,
    directories: Seq<(Seq<char>, Resolution)>,
) -> spec_fn(int) -> Option<ProjectFault> {
    |i: int|
        match plan_of(project, directories, Some(project.pipelines[i].0), seq![]) {
            Err(fault) => Some(fault),
            Ok(_) => None,
        }
}

/// The complaint about the pipelines of a project.
pub open spec fn pipelines_problem(
    project: ProjectView,
    directories: Seq<(Seq<char>, Resolution)>,
) -> Option<ProjectFault> {
    if lookup(project.pipelines, project.default_pipeline) is None {
        Some(unknown_pipeline(project.pipelines, project.default_pipeline))
    } else {
        first_problem(project.pipelines.len(), pipeline_plan_problem(project, directories))
    }
}

/// The complaint about the text of a manifest, before its graph is looked at.
pub open spec fn manifest_problem(
    root: Seq<char>,
    config: MonoConfig,
    directories: Seq<(Seq<char>, Resolution)>,
) -> Option<ProjectFault> {
    let path = join_path(root, crate::config::CONFIG_FILE_NAME@);
    let tasks = config.tasks@;
    let pipelines = config.pipelines@;
    if let Some(fault) = schema_problem(path, config.schema) {
        Some(fault)
    } else if let Some(fault) = identifier_problem(path, "project name"@, config.project.name@) {
        Some(fault)
    } else if let Some(fault) = identifier_problem(
        path,
        "default pipeline"@,
        config.project.default_pipeline@,
    ) {
        Some(fault)
    } else if pipelines.len() == 0 {
        Some(
            ProjectFault::InvalidProject {
                message: "project must define at least one pipeline"@,
            },
        )
    } else if let Some(fault) = first_problem(
        pipelines.len(),
        pipeline_name_problem(path, pipelines),
    ) {
        Some(fault)
    } else if let Some(fault) = first_problem(pipelines.len(), pipeline_problem(path, pipelines)) {
        Some(fault)
    } else {
        first_problem(tasks.len(), declared_task_problem(path, directories, root, tasks))
    }
}

/// The project that a manifest at `root` describes.
pub open spec fn described(root: Seq<char>, config: MonoConfig) -> ProjectView {
    ProjectView {
        root,
        name: config.project.name@,
        default_pipeline: config.project.default_pipeline@,
        pipelines: config.pipelines@,
        tasks: config.tasks@,
    }
}

/// What is wrong with a manifest: the first rule, in this order, that it breaks.
pub open spec fn load_problem(
    root: Seq<char>,
    config: MonoConfig,
    directories: Seq<(Seq<char>, Resolution)>,
) -> Option<ProjectFault> {
    if let Some(fault) = manifest_problem(root, config, directories) {
        Some(fault)
    } else if let Some(fault) = graph_problem(config.tasks@) {
        Some(fault)
    } else {
        pipelines_problem(described(root, config), directories)
    }
}

#[verifier::loop_isolation(false)]
fn check_pipeline(path: &str, name: &str, config: &PipelineConfig, Ghost(at): Ghost<int>, Ghost(
    pipelines,
): Ghost<Pipelines>) -> (r: Result<(), ProjectError>)
    requires
        pipelines[at] == (name@, *config),
    ensures
        match r {
            Ok(_) => pipeline_problem(path@, pipelines)(at) is None,
            Err(e) => pipeline_problem(path@, pipelines)(at) == Some(e@),
        },
{
    let ghost references = texts(config.tasks@) + texts(config.finally@);
    let ghost problem = pipeline_reference_problem(path@, name@, references);
    if config.tasks.len() == 0 && config.finally.len() == 0 {
        return Err(
            ProjectError::InvalidProject {
                message: quoted("pipeline '", name, "' has no tasks"),
            },
        );
    }
    let mut i: usize = 0;
    while i < config.tasks.len()
        invariant
            i <= config.tasks@.len(),
            first_problem(i as nat, problem) is None,
        decreases config.tasks.len() - i,
    {
        assert(references[i as int] == config.tasks@[i as int]@);
        if let Err(message) = validate_task_reference(config.tasks[i].as_str()) {
            proof {
                lemma_first_problem(references.len(), problem, i as nat);
            }
            let mut text = quoted("pipeline '", name, "': ");
            vstd::string::StringExecFns::append(&mut text, message.as_str());
            return Err(ProjectError::InvalidManifest { path: path.to_owned(), message: text });
        }
        i += 1;
    }
    let mut j: usize = 0;
    while j < config.finally.len()
        invariant
            j <= config.finally@.len(),
            i == config.tasks@.len(),
            first_problem((i + j) as nat, problem) is None,
        decreases config.finally.len() - j,
    {
        assert(references[i + j] == config.finally@[j as int]@);
        if let Err(message) = validate_task_reference(config.finally[j].as_str()) {
            proof {
                lemma_first_problem(references.len(), problem, (i + j) as nat);
            }
            let mut text = quoted("pipeline '", name, "': ");
            vstd::string::StringExecFns::append(&mut text, message.as_str());
            return Err(ProjectError::InvalidManifest { path: path.to_owned(), message: text });
        }
        j += 1;
    }
    Ok(())
}

/// `before`, `middle` and `after` in one text.
pub fn quoted(before: &str, middle: &str, after: &str) -> (r: String)
    ensures
        r@ == before@ + middle@ + after@,
{
    let mut text = before.to_owned();
    vstd::string::StringExecFns::append(&mut text, middle);
    vstd::string::StringExecFns::append(&mut text, after);
    text
}

#[verifier::loop_isolation(false)]
fn check_manifest(root: &str, config: &MonoConfig, directories: &Directories) -> (r: Result<
    (),
    ProjectError,
>)
    ensures
        match r {
            Ok(_) => manifest_problem(root@, *config, directories.resolved@) is None,
            Err(e) => manifest_problem(root@, *config, directories.resolved@) == Some(e@),
        },
{
    let path = config_path(root);
    let ghost pipelines = config.pipelines@;
    let ghost tasks = config.tasks@;
    if let Err(e) = validate_schema(path.as_str(), config.schema) {
        return Err(e);
    }
    if let Err(e) = validate_identifier(path.as_str(), "project name", config.project.name.as_str()) {
        return Err(e);
    }
    if let Err(e) = validate_identifier(
        path.as_str(),
        "default pipeline",
        config.project.default_pipeline.as_str(),
    ) {
        return Err(e);
    }
    if config.pipelines.is_empty() {
        return Err(
            ProjectError::InvalidProject {
                message: "project must define at least one pipeline".to_owned(),
            },
        );
    }
    let ghost names = pipeline_name_problem(path@, pipelines);
    let mut i: usize = 0;
    while i < config.pipelines.len()
        invariant
            i <= pipelines.len(),
            first_problem(i as nat, names) is None,
        decreases pipelines.len() - i,
    {
        if let Err(e) = validate_identifier(
            path.as_str(),
            "pipeline name",
            config.pipelines.key_at(i),
        ) {
            proof {
                lemma_first_problem(pipelines.len(), names, i as nat);
            }
            return Err(e);
        }
        i += 1;
    }
    let ghost contents = pipeline_problem(path@, pipelines);
    i = 0;
    while i < config.pipelines.len()
        invariant
            i <= pipelines.len(),
            first_problem(i as nat, contents) is None,
        decreases pipelines.len() - i,
    {
        if let Err(e) = check_pipeline(
            path.as_str(),
            config.pipelines.key_at(i),
            config.pipelines.value_at(i),
            Ghost(i as int),
            Ghost(pipelines),
        ) {
            proof {
                lemma_first_problem(pipelines.len(), contents, i as nat);
            }
            return Err(e);
        }
        i += 1;
    }
    let ghost declared = declared_task_problem(path@, directories.resolved@, root@, tasks);
    i = 0;
    while i < config.tasks.len()
        invariant
            i <= tasks.len(),
            first_problem(i as nat, declared) is None,
        decreases tasks.len() - i,
    {
        let name = config.tasks.key_at(i);
        let task = config.tasks.value_at(i);
        if let Err(e) = validate_task_config(path.as_str(), name, task) {
            proof {
                lemma_first_problem(tasks.len(), declared, i as nat);
            }
            return Err(e);
        }
        if let Err(e) = validate_task_directory(directories, root, name, task) {
            proof {
                lemma_first_problem(tasks.len(), declared, i as nat);
            }
            return Err(e);
        }
        i += 1;
    }
    Ok(())
}

impl Project {
    /// The project that a manifest at `root` describes, where the manifest
    /// breaks no rule.
    pub fn load(root: &str, config: MonoConfig, directories: &Directories) -> (r: Result<
        Project,
        ProjectError,
    >)
        ensures
            match r {
                Ok(project) => {
                    &&& load_problem(root@, config, directories.resolved@) is None
                    &&& project@ == described(root@, config)
                    &&& project.name@.len() > 0
                    &&& lookup(project.pipelines@, project.default_pipeline@) is Some
                },
                Err(e) => load_problem(root@, config, directories.resolved@) == Some(e@),
            },
    {
        if let Err(e) = check_manifest(root, &config, directories) {
            return Err(e);
        }
        let project = Project {
            root: root.to_owned(),
            name: config.project.name,
            default_pipeline: config.project.default_pipeline,
            pipelines: config.pipelines,
            tasks: config.tasks,
        };
        if let Err(e) = project.validate_graph() {
            return Err(e);
        }
        if let Err(e) = project.validate_pipelines(directories) {
            return Err(e);
        }
        Ok(project)
    }

    fn validate_graph(&self) -> (r: Result<(), ProjectError>)
        ensures
            match r {
                Ok(_) => graph_problem(self.tasks@) is None,
                Err(e) => graph_problem(self.tasks@) == Some(e@),
            },
    {
        let ghost tasks = self.tasks@;
        let ghost names = graph_name_problem(tasks);
        let mut i: usize = 0;
        while i < self.tasks.len()
            invariant
                i <= tasks.len(),
                tasks == self.tasks@,
                names == graph_name_problem(tasks),
                first_problem(i as nat, names) is None,
            decreases tasks.len() - i,
        {
            let name = self.tasks.key_at(i);
            if name.is_empty() || instance_mark(name) {
                proof {
                    lemma_first_problem(tasks.len(), names, i as nat);
                }
                return Err(ProjectError::InvalidTaskName { task: name.to_owned() });
            }
            i += 1;
        }
        let ghost references = graph_reference_problem(tasks);
        i = 0;
        while i < self.tasks.len()
            invariant
                i <= tasks.len(),
                tasks == self.tasks@,
                first_problem(tasks.len(), graph_name_problem(tasks)) is None,
                references == graph_reference_problem(tasks),
                first_problem(i as nat, references) is None,
            decreases tasks.len() - i,
        {
            let node = TaskNode::new(self.tasks.key_at(i));
            if let Err(e) = self.resolve_task_refs(&node, &self.tasks.value_at(i).depends_on) {
                proof {
                    lemma_first_problem(tasks.len(), references, i as nat);
                }
                return Err(e);
            }
            i += 1;
        }
        Ok(())
    }

    fn validate_pipelines(&self, directories: &Directories) -> (r: Result<(), ProjectError>)
        ensures
            match r {
                Ok(_) => pipelines_problem(self@, directories.resolved@) is None,
                Err(e) => pipelines_problem(self@, directories.resolved@) == Some(e@),
            },
    {
        if !self.pipelines.contains_key(self.default_pipeline.as_str()) {
            return Err(self.unknown_pipeline(self.default_pipeline.as_str()));
        }
        let none: Vec<String> = Vec::new();
        let ghost plans = pipeline_plan_problem(self@, directories.resolved@);
        assert(texts(none@) =~= seq![]);
        let mut i: usize = 0;
        while i < self.pipelines.len()
            invariant
                i <= self.pipelines@.len(),
                texts(none@) == Seq::<Seq<char>>::empty(),
                plans == pipeline_plan_problem(self@, directories.resolved@),
                lookup(self.pipelines@, self.default_pipeline@) is Some,
                first_problem(i as nat, plans) is None,
            decreases self.pipelines@.len() - i,
        {
            if let Err(e) = self.plan(directories, Some(self.pipelines.key_at(i)), &none) {
                proof {
                    lemma_first_problem(self.pipelines@.len(), plans, i as nat);
                }
                return Err(e);
            }
            i += 1;
        }
        Ok(())
    }

    /// Produce a dependency-first plan for a pipeline or explicit task roots.
    pub fn plan(
        &self,
        directories: &Directories,
        pipeline: Option<&str>,
        requested_tasks: &Vec<String>,
    ) -> (r: Result<Vec<PlannedTask>, ProjectError>)
        ensures
            match r {
                Ok(tasks) => plan_of(
                    self@,
                    directories.resolved@,
                    name_view(pipeline),
                    texts(requested_tasks@),
                ) == Ok::<Seq<PlannedTaskView>, ProjectFault>(planned::plan_view(tasks@)),
                Err(e) => plan_of(
                    self@,
                    directories.resolved@,
                    name_view(pipeline),
                    texts(requested_tasks@),
                ) == Err::<Seq<PlannedTaskView>, ProjectFault>(e@),
            },
    {
        let mut order = match self.plan_nodes(pipeline, requested_tasks) {
            Ok(order) => order,
            Err(e) => {
                return Err(e);
            },
        };
        let normal: usize = order.len();
        let mut names: Vec<String> = Vec::new();
        assert(texts(names@) =~= seq![]);
        if requested_tasks.len() == 0 {
            let name: &str = match pipeline {
                Some(name) => name,
                None => self.default_pipeline.as_str(),
            };
            match self.pipelines.get(name) {
                None => {
                    return Err(self.unknown_pipeline(name));
                },
                Some(config) => {
                    names = copy_texts(&config.finally);
                },
            }
        }
        match self.visit_finalizers(&names, &mut order) {
            Err(e) => Err(e),
            Ok(roots) => self.planned_order(directories, &order, &roots, normal),
        }
    }

    /// Extend `order` by the finalizers; the instances that they named.
    #[verifier::loop_isolation(false)]
    fn visit_finalizers(&self, names: &Vec<String>, order: &mut Vec<TaskNode>) -> (r: Result<
        Vec<String>,
        ProjectError,
    >)
        ensures
            match r {
                Ok(roots) => finalized(self.tasks@, texts(names@), node_ids(old(order)@)) == Ok::<
                    FinalizedOrder,
                    ProjectFault,
                >((FinalizedOrder { order: node_ids(final(order)@), roots: texts(roots@) })),
                Err(e) => finalized(self.tasks@, texts(names@), node_ids(old(order)@)) == Err::<
                    FinalizedOrder,
                    ProjectFault,
                >(e@),
            },
    {
        let ghost first = node_ids(order@);
        let ghost all = texts(names@);
        let mut roots: Vec<String> = Vec::new();
        let mut i: usize = 0;
        assert(texts(roots@) =~= seq![]);
        assert(all.take(0) =~= seq![]);
        while i < names.len()
            invariant
                i <= names@.len(),
                finalized(self.tasks@, all.take(i as int), first) == Ok::<
                    FinalizedOrder,
                    ProjectFault,
                >(FinalizedOrder { order: node_ids(order@), roots: texts(roots@) }),
            decreases names.len() - i,
        {
            assert(all.take(i as int + 1).drop_last() =~= all.take(i as int));
            assert(all.take(i as int + 1).last() == names@[i as int]@);
            let ids = match self.root_nodes(names[i].as_str()) {
                Ok(ids) => ids,
                Err(e) => {
                    proof {
                        lemma_finalized_error_stays(self.tasks@, all, first, i as int + 1);
                    }
                    return Err(e);
                },
            };
            if let Err(e) = self.visit_all(&ids, order) {
                proof {
                    lemma_finalized_error_stays(self.tasks@, all, first, i as int + 1);
                }
                return Err(e);
            }
            let ghost before = texts(roots@);
            let mut found = ids_of(&ids);
            let ghost added = texts(found@);
            roots.append(&mut found);
            assert(texts(roots@) =~= before + added);
            i += 1;
        }
        assert(all.take(i as int) =~= all);
        Ok(roots)
    }

    /// Each task of `order` as it will run.
    #[verifier::loop_isolation(false)]
    fn planned_order(
        &self,
        directories: &Directories,
        order: &Vec<TaskNode>,
        roots: &Vec<String>,
        normal: usize,
    ) -> (r: Result<Vec<PlannedTask>, ProjectError>)
        ensures
            ({
                let whole = FinalizedOrder { order: node_ids(order@), roots: texts(roots@) };
                let outcome = planned_tasks(
                    self@,
                    directories.resolved@,
                    whole,
                    normal as nat,
                    order@.len(),
                );
                match r {
                    Ok(tasks) => outcome == Ok::<Seq<PlannedTaskView>, ProjectFault>(
                        planned::plan_view(tasks@),
                    ),
                    Err(e) => outcome == Err::<Seq<PlannedTaskView>, ProjectFault>(e@),
                }
            }),
    {
        let ghost whole = FinalizedOrder { order: node_ids(order@), roots: texts(roots@) };
        let mut tasks: Vec<PlannedTask> = Vec::new();
        let mut n: usize = 0;
        assert(planned::plan_view(tasks@) =~= seq![]);
        while n < order.len()
            invariant
                n <= order@.len(),
                planned_tasks(self@, directories.resolved@, whole, normal as nat, n as nat) == Ok::<
                    Seq<PlannedTaskView>,
                    ProjectFault,
                >(planned::plan_view(tasks@)),
            decreases order.len() - n,
        {
            let id = order[n].id.as_str();
            assert(whole.order[n as int] == id@);
            let finalizer: bool = n >= normal || holds(roots, id);
            match self.planned_task(directories, id, finalizer) {
                Err(e) => {
                    proof {
                        lemma_planned_error_stays(
                            self@,
                            directories.resolved@,
                            whole,
                            normal as nat,
                            n as nat + 1,
                            order@.len(),
                        );
                    }
                    return Err(e);
                },
                Ok(task) => {
                    let ghost before = planned::plan_view(tasks@);
                    tasks.push(task);
                    assert(planned::plan_view(tasks@) =~= before.push(task@));
                },
            }
            n += 1;
        }
        Ok(tasks)
    }

    /// The tasks of a plan with their dependencies.
    #[verifier::loop_isolation(false)]
    pub fn graph(&self, pipeline: Option<&str>, requested_tasks: &Vec<String>) -> (r: Result<
        Vec<(TaskNode, Vec<TaskNode>)>,
        ProjectError,
    >)
        ensures
            match planned_ids(self@, name_view(pipeline), texts(requested_tasks@)) {
                Err(fault) => r matches Err(e) && e@ == fault,
                Ok(order) => match r {
                    Ok(edges) => edges_of(self.tasks@, order, order.len()) == Ok::<
                        Seq<(Seq<char>, Seq<Seq<char>>)>,
                        ProjectFault,
                    >(graph_view(edges@)),
                    Err(e) => edges_of(self.tasks@, order, order.len()) == Err::<
                        Seq<(Seq<char>, Seq<Seq<char>>)>,
                        ProjectFault,
                    >(e@),
                },
            },
    {
        let order = match self.plan_nodes(pipeline, requested_tasks) {
            Ok(order) => order,
            Err(e) => {
                return Err(e);
            },
        };
        let ghost ids = node_ids(order@);
        let mut edges: Vec<(TaskNode, Vec<TaskNode>)> = Vec::new();
        let mut n: usize = 0;
        assert(graph_view(edges@) =~= seq![]);
        while n < order.len()
            invariant
                n <= order@.len(),
                edges_of(self.tasks@, ids, n as nat) == Ok::<
                    Seq<(Seq<char>, Seq<Seq<char>>)>,
                    ProjectFault,
                >(graph_view(edges@)),
            decreases order.len() - n,
        {
            assert(ids[n as int] == order@[n as int].id@);
            match self.dependencies(&order[n]) {
                Err(e) => {
                    proof {
                        lemma_edges_error_stays(self.tasks@, ids, n as nat + 1, ids.len());
                    }
                    return Err(e);
                },
                Ok(needed) => {
                    let ghost before = graph_view(edges@);
                    let node = order[n].copy();
                    edges.push((node, needed));
                    assert(graph_view(edges@) =~= before.push((node.id@, node_ids(needed@))));
                },
            }
            n += 1;
        }
        Ok(edges)
    }

    #[verifier::loop_isolation(false)]
    fn plan_nodes(&self, pipeline: Option<&str>, requested_tasks: &Vec<String>) -> (r: Result<
        Vec<TaskNode>,
        ProjectError,
    >)
        ensures
            match r {
                Ok(order) => planned_ids(self@, name_view(pipeline), texts(requested_tasks@))
                    == Ok::<Seq<Seq<char>>, ProjectFault>(node_ids(order@)),
                Err(e) => planned_ids(self@, name_view(pipeline), texts(requested_tasks@)) == Err::<
                    Seq<Seq<char>>,
                    ProjectFault,
                >(e@),
            },
    {
        let names: Vec<String> = if requested_tasks.len() == 0 {
            let name: &str = match pipeline {
                Some(name) => name,
                None => self.default_pipeline.as_str(),
            };
            match self.pipelines.get(name) {
                None => {
                    return Err(self.unknown_pipeline(name));
                },
                Some(config) => copy_texts(&config.tasks),
            }
        } else {
            copy_texts(requested_tasks)
        };
        if names.len() == 0 {
            return Err(
                ProjectError::InvalidProject {
                    message: "the selected pipeline has no tasks".to_owned(),
                },
            );
        }
        let ghost all = texts(names@);
        let mut set: TextMap<bool> = TextMap::new();
        let mut i: usize = 0;
        assert(all.take(0) =~= seq![]);
        while i < names.len()
            invariant
                i <= names@.len(),
                root_set(self.tasks@, all.take(i as int)) == Ok::<IdSet, ProjectFault>(set@),
            decreases names.len() - i,
        {
            assert(all.take(i as int + 1).drop_last() =~= all.take(i as int));
            assert(all.take(i as int + 1).last() == names@[i as int]@);
            let ids = match self.root_nodes(names[i].as_str()) {
                Ok(ids) => ids,
                Err(e) => {
                    proof {
                        lemma_root_error_stays(self.tasks@, all, i as int + 1);
                    }
                    return Err(e);
                },
            };
            let ghost before = set@;
            let ghost found = node_ids(ids@);
            let mut k: usize = 0;
            assert(found.take(0) =~= seq![]);
            while k < ids.len()
                invariant
                    k <= ids@.len(),
                    set@ == with_ids(before, found.take(k as int)),
                decreases ids.len() - k,
            {
                assert(found.take(k as int + 1).drop_last() =~= found.take(k as int));
                assert(found.take(k as int + 1).last() == ids@[k as int].id@);
                set.insert(ids[k].id.clone(), true);
                k += 1;
            }
            assert(found.take(k as int) =~= found);
            i += 1;
        }
        assert(all.take(i as int) =~= all);
        let mut roots: Vec<TaskNode> = Vec::new();
        let mut k: usize = 0;
        assert(node_ids(roots@) =~= keys(set@).take(0));
        while k < set.len()
            invariant
                k <= set@.len(),
                node_ids(roots@) == keys(set@).take(k as int),
            decreases set@.len() - k,
        {
            let ghost before = node_ids(roots@);
            let node = TaskNode::new(set.key_at(k));
            roots.push(node);
            assert(node_ids(roots@) =~= before.push(node.id@));
            k += 1;
            assert(node_ids(roots@) =~= keys(set@).take(k as int));
        }
        assert(node_ids(roots@) =~= keys(set@));
        let mut order: Vec<TaskNode> = Vec::new();
        assert(node_ids(order@) =~= seq![]);
        match self.visit_all(&roots, &mut order) {
            Ok(_) => Ok(order),
            Err(e) => Err(e),
        }
    }

    /// Extend `order` by each of `nodes` and whatever they need first.
    #[verifier::loop_isolation(false)]
    fn visit_all(&self, nodes: &Vec<TaskNode>, order: &mut Vec<TaskNode>) -> (r: Result<
        (),
        ProjectError,
    >)
        ensures
            match r {
                Ok(_) => visited_all(
                    self.tasks@,
                    node_ids(nodes@),
                    node_ids(old(order)@),
                    seq![],
                    depth_limit(self.tasks@),
                ) == Ok::<Seq<Seq<char>>, ProjectFault>(node_ids(final(order)@)),
                Err(e) => visited_all(
                    self.tasks@,
                    node_ids(nodes@),
                    node_ids(old(order)@),
                    seq![],
                    depth_limit(self.tasks@),
                ) == Err::<Seq<Seq<char>>, ProjectFault>(e@),
            },
    {
        let ghost ids = node_ids(nodes@);
        let ghost done = node_ids(order@);
        let ghost limit = depth_limit(self.tasks@);
        let mut stack: Vec<TaskNode> = Vec::new();
        let mut i: usize = 0;
        assert(ids.take(0) =~= seq![]);
        assert(node_ids(stack@) =~= seq![]);
        while i < nodes.len()
            invariant
                i <= nodes@.len(),
                node_ids(stack@) == Seq::<Seq<char>>::empty(),
                visited_all(self.tasks@, ids.take(i as int), done, seq![], limit) == Ok::<
                    Seq<Seq<char>>,
                    ProjectFault,
                >(node_ids(order@)),
            decreases nodes.len() - i,
        {
            assert(ids.take(i as int + 1).drop_last() =~= ids.take(i as int));
            assert(ids.take(i as int + 1).last() == nodes@[i as int].id@);
            let ghost universe = mentioned(self.tasks@).push(nodes@[i as int].id@);
            proof {
                assert(universe[universe.len() - 1] == nodes@[i as int].id@);
                lemma_mentioned_is_closed(self.tasks@, nodes@[i as int].id@);
            }
            if let Err(e) = self.visit_task(&nodes[i], &mut stack, order, Ghost(universe)) {
                proof {
                    lemma_visited_error_stays(self.tasks@, ids, done, seq![], limit, i as int + 1);
                }
                return Err(e);
            }
            i += 1;
        }
        assert(ids.take(i as int) =~= ids);
        Ok(())
    }

    /// Extend `order` by `node` and whatever it needs first.
    fn visit_task(
        &self,
        node: &TaskNode,
        stack: &mut Vec<TaskNode>,
        order: &mut Vec<TaskNode>,
        Ghost(universe): Ghost<Seq<Seq<char>>>,
    ) -> (r: Result<(), ProjectError>)
        requires
            is_closed(self.tasks@, universe),
            universe.contains(node.id@),
            is_waiting_chain(self.tasks@, universe, node_ids(old(stack)@)),
            is_chain(self.tasks@, node_ids(old(stack)@).push(node.id@)),
        ensures
            ({
                let limit = (universe.len() + 1 - old(stack)@.len()) as nat;
                let outcome = visited(
                    self.tasks@,
                    node.id@,
                    node_ids(old(order)@),
                    node_ids(old(stack)@),
                    limit,
                );
                match r {
                    Ok(_) => outcome == Ok::<Seq<Seq<char>>, ProjectFault>(
                        node_ids(final(order)@),
                    ) && node_ids(final(stack)@) == node_ids(old(stack)@),
                    Err(e) => outcome == Err::<Seq<Seq<char>>, ProjectFault>(e@),
                }
            }),
        decreases universe.len() + 1 - old(stack)@.len(),
    {
        let ghost tasks = self.tasks@;
        let ghost done = node_ids(order@);
        let ghost waiting = node_ids(stack@);
        let ghost limit = (universe.len() + 1 - stack@.len()) as nat;
        proof {
            lemma_chain_bound(waiting, universe);
        }
        if position_of(order, node.id.as_str()).is_some() {
            return Ok(());
        }
        if let Some(start) = position_of(stack, node.id.as_str()) {
            return Err(ProjectError::TaskCycle { path: cycle_from(stack, start, node) });
        }
        let needed = match self.dependencies(node) {
            Ok(needed) => needed,
            Err(e) => {
                return Err(e);
            },
        };
        let ghost ids = node_ids(needed@);
        stack.push(node.copy());
        let ghost longer = waiting.push(node.id@);
        assert(node_ids(stack@) =~= longer);
        proof {
            lemma_push_waiting(tasks, universe, waiting, node.id@);
            lemma_chain_bound(longer, universe);
        }
        let mut i: usize = 0;
        assert(ids.take(0) =~= seq![]);
        while i < needed.len()
            invariant
                i <= needed@.len(),
                tasks == self.tasks@,
                ids == node_ids(needed@),
                node_ids(stack@) == longer,
                longer == waiting.push(node.id@),
                is_closed(tasks, universe),
                is_waiting_chain(tasks, universe, longer),
                longer.len() <= universe.len(),
                waiting == node_ids(old(stack)@),
                done == node_ids(old(order)@),
                limit == universe.len() + 1 - waiting.len(),
                dependencies(tasks, node.id@) == Ok::<Seq<Seq<char>>, ProjectFault>(ids),
                !done.contains(node.id@),
                !waiting.contains(node.id@),
                visited(tasks, node.id@, done, waiting, limit) == (match visited_all(
                    tasks,
                    ids,
                    done,
                    longer,
                    (limit - 1) as nat,
                ) {
                    Err(fault) => Err(fault),
                    Ok(all) => Ok(all.push(node.id@)),
                }),
                visited_all(tasks, ids.take(i as int), done, longer, (limit - 1) as nat) == Ok::<
                    Seq<Seq<char>>,
                    ProjectFault,
                >(node_ids(order@)),
            decreases needed.len() - i,
        {
            assert(ids.take(i as int + 1).drop_last() =~= ids.take(i as int));
            assert(ids.take(i as int + 1).last() == needed@[i as int].id@);
            proof {
                assert(ids[i as int] == needed@[i as int].id@);
                assert(ids.contains(needed@[i as int].id@));
                assert(universe.contains(needed@[i as int].id@));
                assert(longer.last() == node.id@);
                lemma_chain_push(tasks, longer, needed@[i as int].id@);
            }
            assert(stack@.len() == longer.len());
            if let Err(e) = self.visit_task(&needed[i], stack, order, Ghost(universe)) {
                proof {
                    lemma_visited_error_stays(
                        tasks,
                        ids,
                        done,
                        longer,
                        (limit - 1) as nat,
                        i as int + 1,
                    );
                }
                return Err(e);
            }
            i += 1;
        }
        assert(ids.take(i as int) =~= ids);
        assert(stack@.len() == longer.len());
        let ghost full = stack@;
        stack.pop();
        assert(node_ids(stack@) =~= waiting) by {
            assert forall|k: int| 0 <= k < waiting.len() implies node_ids(stack@)[k]
                == waiting[k] by {
                assert(node_ids(full)[k] == longer[k]);
            }
        }
        let ghost before = node_ids(order@);
        order.push(node.copy());
        assert(node_ids(order@) =~= before.push(node.id@));
        Ok(())
    }

    /// The instances that must be done before `node` runs.
    fn dependencies(&self, node: &TaskNode) -> (r: Result<Vec<TaskNode>, ProjectError>)
        ensures
            match r {
                Ok(needed) => dependencies(self.tasks@, node.id@) == Ok::<
                    Seq<Seq<char>>,
                    ProjectFault,
                >(node_ids(needed@)),
                Err(e) => dependencies(self.tasks@, node.id@) == Err::<
                    Seq<Seq<char>>,
                    ProjectFault,
                >(e@),
            },
    {
        match self.task_config(node.id.as_str()) {
            Err(e) => Err(e),
            Ok(task) => self.resolve_task_refs(node, &task.depends_on),
        }
    }

    /// The instances that a requested name stands for.
    #[verifier::loop_isolation(false)]
    fn root_nodes(&self, task_name: &str) -> (r: Result<Vec<TaskNode>, ProjectError>)
        ensures
            match r {
                Ok(nodes) => root_ids(self.tasks@, task_name@) == Ok::<
                    Seq<Seq<char>>,
                    ProjectFault,
                >(node_ids(nodes@)),
                Err(e) => root_ids(self.tasks@, task_name@) == Err::<Seq<Seq<char>>, ProjectFault>(
                    e@,
                ),
            },
    {
        let task = match self.task_config(task_name) {
            Ok(task) => task,
            Err(e) => {
                return Err(e);
            },
        };
        let dimensions = match task_dimensions(task_name) {
            Ok(dimensions) => dimensions,
            Err(_) => {
                return Err(invalid_reference(task_name, task_name));
            },
        };
        if !dimensions.is_empty() {
            if let Err(message) = validate_matrix_instance(&task.matrix, &dimensions) {
                return Err(ProjectError::InvalidTask { task: task_name.to_owned(), message });
            }
            let mut nodes: Vec<TaskNode> = Vec::new();
            nodes.push(TaskNode::new(task_name));
            assert(node_ids(nodes@) =~= seq![task_name@]);
            return Ok(nodes);
        }
        let free: TextMap<String> = TextMap::new();
        assert(text_entries(free@) =~= seq![]);
        match matrix_instances(&task.matrix, &free) {
            Err(message) => Err(ProjectError::InvalidTask { task: task_name.to_owned(), message }),
            Ok(instances) => Ok(named_instances(task_name, &instances)),
        }
    }

    /// The configuration that an instance runs.
    fn task_config(&self, node: &str) -> (r: Result<&TaskConfig, ProjectError>)
        ensures
            match r {
                Ok(task) => task_of(self.tasks@, node@) == Ok::<TaskConfig, ProjectFault>(*task),
                Err(e) => task_of(self.tasks@, node@) == Err::<TaskConfig, ProjectFault>(e@),
            },
    {
        match base_task_name(node) {
            Err(_) => Err(invalid_reference(node, node)),
            Ok(base) => match self.tasks.get(base.as_str()) {
                Some(task) => Ok(task),
                None => Err(self.missing_task(node)),
            },
        }
    }

    /// The instances that references stand for, in order.
    #[verifier::loop_isolation(false)]
    fn resolve_task_refs(&self, current: &TaskNode, references: &Vec<String>) -> (r: Result<
        Vec<TaskNode>,
        ProjectError,
    >)
        ensures
            match r {
                Ok(nodes) => resolved_refs(self.tasks@, current.id@, texts(references@)) == Ok::<
                    Seq<Seq<char>>,
                    ProjectFault,
                >(node_ids(nodes@)),
                Err(e) => resolved_refs(self.tasks@, current.id@, texts(references@)) == Err::<
                    Seq<Seq<char>>,
                    ProjectFault,
                >(e@),
            },
    {
        let ghost all = texts(references@);
        let mut resolved: Vec<TaskNode> = Vec::new();
        let mut i: usize = 0;
        assert(all.take(0) =~= seq![]);
        assert(node_ids(resolved@) =~= seq![]);
        while i < references.len()
            invariant
                i <= references@.len(),
                resolved_refs(self.tasks@, current.id@, all.take(i as int)) == Ok::<
                    Seq<Seq<char>>,
                    ProjectFault,
                >(node_ids(resolved@)),
            decreases references.len() - i,
        {
            assert(all.take(i as int + 1).drop_last() =~= all.take(i as int));
            assert(all.take(i as int + 1).last() == references@[i as int]@);
            match self.resolve_task_ref(current, references[i].as_str()) {
                Err(e) => {
                    proof {
                        lemma_refs_error_stays(self.tasks@, current.id@, all, i as int + 1);
                    }
                    return Err(e);
                },
                Ok(nodes) => {
                    let ghost before = node_ids(resolved@);
                    let ghost found = node_ids(nodes@);
                    let mut nodes = nodes;
                    resolved.append(&mut nodes);
                    assert(node_ids(resolved@) =~= before + found);
                },
            }
            i += 1;
        }
        assert(all.take(i as int) =~= all);
        Ok(resolved)
    }

    /// The instances that one reference stands for.
    fn resolve_task_ref(&self, current: &TaskNode, reference: &str) -> (r: Result<
        Vec<TaskNode>,
        ProjectError,
    >)
        ensures
            match r {
                Ok(nodes) => resolved_ref(self.tasks@, current.id@, reference@) == Ok::<
                    Seq<Seq<char>>,
                    ProjectFault,
                >(node_ids(nodes@)),
                Err(e) => resolved_ref(self.tasks@, current.id@, reference@) == Err::<
                    Seq<Seq<char>>,
                    ProjectFault,
                >(e@),
            },
    {
        if let Err(_) = validate_task_reference(reference) {
            return Err(invalid_reference(reference, current.id.as_str()));
        }
        let task = match self.task_config(reference) {
            Ok(task) => task,
            Err(e) => {
                return Err(e);
            },
        };
        let explicit = match task_dimensions(reference) {
            Ok(explicit) => explicit,
            Err(_) => {
                return Err(invalid_reference(reference, current.id.as_str()));
            },
        };
        if !explicit.is_empty() {
            if let Err(message) = validate_matrix_instance(&task.matrix, &explicit) {
                return Err(ProjectError::InvalidTask { task: reference.to_owned(), message });
            }
            let mut nodes: Vec<TaskNode> = Vec::new();
            nodes.push(TaskNode::new(reference));
            assert(node_ids(nodes@) =~= seq![reference@]);
            return Ok(nodes);
        }
        let dimensions = match task_dimensions(current.id.as_str()) {
            Ok(dimensions) => dimensions,
            Err(_) => {
                return Err(invalid_reference(current.id.as_str(), current.id.as_str()));
            },
        };
        match matrix_instances(&task.matrix, &dimensions) {
            Err(message) => Err(ProjectError::InvalidTask { task: reference.to_owned(), message }),
            Ok(instances) => Ok(named_instances(reference, &instances)),
        }
    }

    fn missing_task(&self, task: &str) -> (r: ProjectError)
        ensures
            r@ == missing_task(self.tasks@, task@),
    {
        ProjectError::MissingTask {
            task: task.to_owned(),
            suggestion: closest_name(task, &self.tasks.keys()),
        }
    }

    fn unknown_pipeline(&self, name: &str) -> (r: ProjectError)
        ensures
            r@ == unknown_pipeline(self.pipelines@, name@),
    {
        ProjectError::UnknownPipeline {
            name: name.to_owned(),
            suggestion: closest_name(name, &self.pipelines.keys()),
        }
    }
}

/// The view of an optional name.
pub open spec fn name_view(name: Option<&str>) -> Option<Seq<char>> {
    match name {
        Some(name) => Some(name@),
        None => None,
    }
}

pub(crate) fn invalid_reference(reference: &str, from: &str) -> (r: ProjectError)
    ensures
        r@ == bad_reference(reference@, from@),
{
    ProjectError::InvalidTaskReference {
        reference: reference.to_owned(),
        from: TaskNode::new(from),
    }
}

/// The index of the first task with the identity `id`.
fn position_of(nodes: &Vec<TaskNode>, id: &str) -> (r: Option<usize>)
    ensures
        match r {
            Some(i) => i < nodes@.len() && node_ids(nodes@)[i as int] == id@ && forall|j: int|
                0 <= j < i ==> node_ids(nodes@)[j] != id@,
            None => !node_ids(nodes@).contains(id@),
        },
        r is Some == node_ids(nodes@).contains(id@),
{
    let mut i: usize = 0;
    while i < nodes.len()
        invariant
            i <= nodes@.len(),
            forall|j: int| 0 <= j < i ==> node_ids(nodes@)[j] != id@,
        decreases nodes.len() - i,
    {
        if same(nodes[i].id.as_str(), id) {
            assert(node_ids(nodes@)[i as int] == id@);
            return Some(i);
        }
        i += 1;
    }
    None
}

proof fn lemma_cycle_path_from(stack: Seq<Seq<char>>, node: Seq<char>, start: int)
    requires
        0 <= start < stack.len(),
        stack[start] == node,
        forall|j: int| 0 <= j < start ==> stack[j] != node,
    ensures
        cycle_path(stack, node) == stack.skip(start).push(node),
    decreases start,
{
    if start == 0 {
        assert(stack.skip(0) =~= stack);
    } else {
        lemma_cycle_path_from(stack.drop_first(), node, start - 1);
        assert(stack.drop_first().skip(start - 1) =~= stack.skip(start));
    }
}

/// The chain from `stack[start]` on, and `node` again.
fn cycle_from(stack: &Vec<TaskNode>, start: usize, node: &TaskNode) -> (r: Vec<TaskNode>)
    requires
        start < stack@.len(),
        stack@[start as int].id@ == node.id@,
        forall|j: int| 0 <= j < start ==> node_ids(stack@)[j] != node.id@,
    ensures
        node_ids(r@) == cycle_path(node_ids(stack@), node.id@),
{
    let mut path: Vec<TaskNode> = Vec::new();
    let mut i: usize = start;
    while i < stack.len()
        invariant
            start <= i <= stack@.len(),
            node_ids(path@) == node_ids(stack@).subrange(start as int, i as int),
        decreases stack.len() - i,
    {
        let ghost before = node_ids(path@);
        path.push(stack[i].copy());
        assert(node_ids(path@) =~= before.push(stack@[i as int].id@));
        i += 1;
        assert(node_ids(path@) =~= node_ids(stack@).subrange(start as int, i as int));
    }
    let ghost before = node_ids(path@);
    path.push(node.copy());
    proof {
        assert(node_ids(path@) =~= before.push(node.id@));
        assert(node_ids(stack@)[start as int] == node.id@);
        lemma_cycle_path_from(node_ids(stack@), node.id@, start as int);
        assert(before =~= node_ids(stack@).skip(start as int));
    }
    path
}

/// The nodes of a list of instances of the task that `reference` names.
fn named_instances(reference: &str, instances: &Vec<TextMap<String>>) -> (r: Vec<TaskNode>)
    requires
        base_name(reference@) is Some,
    ensures
        node_ids(r@) == instance_names(base_name(reference@)->0, instance_list(instances@)),
{
    let base: String = match base_task_name(reference) {
        Ok(base) => base,
        Err(_) => String::new(),
    };
    let ghost names = instance_names(base@, instance_list(instances@));
    let mut nodes: Vec<TaskNode> = Vec::new();
    let mut i: usize = 0;
    while i < instances.len()
        invariant
            i <= instances@.len(),
            names == instance_names(base@, instance_list(instances@)),
            node_ids(nodes@) == names.take(i as int),
        decreases instances.len() - i,
    {
        let id = format_task_instance(base.as_str(), &instances[i]);
        let ghost before = node_ids(nodes@);
        assert(names[i as int] == id@);
        nodes.push(TaskNode { id });
        assert(node_ids(nodes@) =~= before.push(id@));
        i += 1;
        assert(node_ids(nodes@) =~= names.take(i as int));
    }
    assert(node_ids(nodes@) =~= names);
    nodes
}

proof fn lemma_finalized_error_stays(
    tasks: Tasks,
    names: Seq<Seq<char>>,
    order: Seq<Seq<char>>,
    k: int,
)
    requires
        0 <= k <= names.len(),
        finalized(tasks, names.take(k), order) is Err,
    ensures
        finalized(tasks, names, order) == finalized(tasks, names.take(k), order),
    decreases names.len() - k,
{
    if k < names.len() {
        assert(names.take(k + 1).drop_last() =~= names.take(k));
        lemma_finalized_error_stays(tasks, names, order, k + 1);
    } else {
        assert(names.take(k) =~= names);
    }
}

proof fn lemma_planned_error_stays(
    project: ProjectView,
    directories: Seq<(Seq<char>, Resolution)>,
    plan: FinalizedOrder,
    normal: nat,
    k: nat,
    count: nat,
)
    requires
        k <= count,
        planned_tasks(project, directories, plan, normal, k) is Err,
    ensures
        planned_tasks(project, directories, plan, normal, count) == planned_tasks(
            project,
            directories,
            plan,
            normal,
            k,
        ),
    decreases count,
{
    if k < count {
        lemma_planned_error_stays(project, directories, plan, normal, k, (count - 1) as nat);
    }
}

proof fn lemma_edges_error_stays(tasks: Tasks, order: Seq<Seq<char>>, k: nat, count: nat)
    requires
        k <= count,
        edges_of(tasks, order, k) is Err,
    ensures
        edges_of(tasks, order, count) == edges_of(tasks, order, k),
    decreases count,
{
    if k < count {
        lemma_edges_error_stays(tasks, order, k, (count - 1) as nat);
    }
}

} // verus!
