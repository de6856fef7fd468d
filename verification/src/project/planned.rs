//! One task of a plan, as it will run.

use vstd::prelude::*;

use crate::config::{StdinMode, TaskConfig};
use crate::map::{sorted, TextMap};
use crate::project::error::{node_ids, ProjectError, ProjectFault, TaskNode};
use crate::path::{join_path, join_paths};
use crate::project::graph::{bad_reference, resolved_refs, task_of, Tasks};
use crate::project::matrix::{instance_list, instances_of, law_fixed_instances_are_instances, matrix_instances};
use crate::project::validate::{task_problem, validate_task_config};
use crate::project::matrix::{dimensions_of, instance_problem, interpolate_value, interpolated};
use crate::project::matrix::{list_entries, task_dimensions, text_entries, validate_matrix_instance};
use crate::project::matrix::Dimensions;
use crate::project::validate::{resolved_directory, Directories, Resolution};
use crate::project::{invalid_reference, Project, ProjectView};
use crate::text::{copy_optional, copy_texts, optional_text, texts};
use crate::time::Duration;

verus! {

/// One executable task in a deterministic task-DAG plan.
#[derive(Debug, Clone, PartialEq, Eq)]
pub struct PlannedTask {
    pub id: String,
    pub project: String,
    pub root: String,
    pub command: Vec<String>,
    pub stdin: StdinMode,
    pub cwd: String,
    pub env: TextMap<String>,
    pub cache: bool,
    pub inputs: Vec<String>,
    pub outputs: Vec<String>,
    pub cache_env: Vec<String>,
    pub timeout: Duration,
    pub max_output_bytes: usize,
    pub resource_group: Option<String>,
    pub retries: u32,
    pub retry_backoff: Duration,
    pub finalizer: bool,
    pub depends_on: Vec<TaskNode>,
}

/// What a `PlannedTask` says.
pub struct PlannedTaskView {
    pub id: Seq<char>,
    pub project: Seq<char>,
    pub root: Seq<char>,
    pub command: Seq<Seq<char>>,
    pub stdin: StdinMode,
    pub cwd: Seq<char>,
    pub env: Dimensions,
    pub cache: bool,
    pub inputs: Seq<Seq<char>>,
    pub outputs: Seq<Seq<char>>,
    pub cache_env: Seq<Seq<char>>,
    pub timeout: Duration,
    pub max_output_bytes: usize,
    pub resource_group: Option<Seq<char>>,
    pub retries: u32,
    pub retry_backoff: Duration,
    pub finalizer: bool,
    pub depends_on: Seq<Seq<char>>,
}

impl View for PlannedTask {
    type V = PlannedTaskView;

    open spec fn view(&self) -> PlannedTaskView {
        PlannedTaskView {
            id: self.id@,
            project: self.project@,
            root: self.root@,
            command: texts(self.command@),
            stdin: self.stdin,
            cwd: self.cwd@,
            env: text_entries(self.env@),
            cache: self.cache,
            inputs: texts(self.inputs@),
            outputs: texts(self.outputs@),
            cache_env: texts(self.cache_env@),
            timeout: self.timeout,
            max_output_bytes: self.max_output_bytes,
            resource_group: optional_text(self.resource_group),
            retries: self.retries,
            retry_backoff: self.retry_backoff,
            finalizer: self.finalizer,
            depends_on: node_ids(self.depends_on@),
        }
    }
}

/// What a plan says.
pub open spec fn plan_view(plan: Seq<PlannedTask>) -> Seq<PlannedTaskView> {
    plan.map_values(|t: PlannedTask| t@)
}

impl PlannedTask {
    pub fn node(&self) -> (r: TaskNode)
        ensures
            r.id@ == self.id@,
    {
        TaskNode { id: self.id.clone() }
    }

    pub fn id(&self) -> (r: &str)
        ensures
            r@ == self.id@,
    {
        self.id.as_str()
    }

    pub fn task(&self) -> (r: &str)
        ensures
            r@ == self.id@,
    {
        self.id.as_str()
    }

    pub fn project(&self) -> (r: &str)
        ensures
            r@ == self.project@,
    {
        self.project.as_str()
    }

    pub fn root(&self) -> (r: &str)
        ensures
            r@ == self.root@,
    {
        self.root.as_str()
    }

    pub fn command(&self) -> (r: &Vec<String>)
        ensures
            *r == self.command,
    {
        &self.command
    }

    pub fn stdin(&self) -> (r: StdinMode)
        ensures
            r == self.stdin,
    {
        self.stdin
    }

    pub fn cwd(&self) -> (r: &str)
        ensures
            r@ == self.cwd@,
    {
        self.cwd.as_str()
    }

    pub fn env(&self) -> (r: &TextMap<String>)
        ensures
            *r == self.env,
    {
        &self.env
    }

    pub fn cache(&self) -> (r: bool)
        ensures
            r == self.cache,
    {
        self.cache
    }

    pub fn inputs(&self) -> (r: &Vec<String>)
        ensures
            *r == self.inputs,
    {
        &self.inputs
    }

    pub fn outputs(&self) -> (r: &Vec<String>)
        ensures
            *r == self.outputs,
    {
        &self.outputs
    }

    pub fn cache_env(&self) -> (r: &Vec<String>)
        ensures
            *r == self.cache_env,
    {
        &self.cache_env
    }

    pub fn timeout(&self) -> (r: Duration)
        ensures
            r == self.timeout,
    {
        self.timeout
    }

    pub fn max_output_bytes(&self) -> (r: usize)
        ensures
            r == self.max_output_bytes,
    {
        self.max_output_bytes
    }

    pub fn resource_group(&self) -> (r: Option<&str>)
        ensures
            crate::project::name_view(r) == optional_text(self.resource_group),
    {
        match &self.resource_group {
            Some(group) => Some(group.as_str()),
            None => None,
        }
    }

    pub fn retries(&self) -> (r: u32)
        ensures
            r == self.retries,
    {
        self.retries
    }

    pub fn retry_backoff(&self) -> (r: Duration)
        ensures
            r == self.retry_backoff,
    {
        self.retry_backoff
    }

    pub fn is_finalizer(&self) -> (r: bool)
        ensures
            r == self.finalizer,
    {
        self.finalizer
    }

    pub fn depends_on(&self) -> (r: &Vec<TaskNode>)
        ensures
            *r == self.depends_on,
    {
        &self.depends_on
    }
}

/// Each of `values` with its placeholders replaced.
pub open spec fn interpolated_list(values: Seq<Seq<char>>, dimensions: Dimensions) -> Result<
    Seq<Seq<char>>,
    Seq<char>,
>
    decreases values.len(),
{
    if values.len() == 0 {
        Ok(seq![])
    } else {
        match interpolated_list(values.drop_last(), dimensions) {
            Err(message) => Err(message),
            Ok(earlier) => match interpolated(values.last(), dimensions) {
                Err(message) => Err(message),
                Ok(last) => Ok(earlier.push(last)),
            },
        }
    }
}

/// The environment with the placeholders of its values replaced.
pub open spec fn interpolated_env(env: Dimensions, dimensions: Dimensions) -> Result<
    Dimensions,
    Seq<char>,
>
    decreases env.len(),
{
    if env.len() == 0 {
        Ok(seq![])
    } else {
        match interpolated_env(env.drop_last(), dimensions) {
            Err(message) => Err(message),
            Ok(earlier) => match interpolated(env.last().1, dimensions) {
                Err(message) => Err(message),
                Ok(last) => Ok(earlier.push((env.last().0, last))),
            },
        }
    }
}

/// The working directory that a task declares; the root where it declares none.
pub open spec fn declared_cwd(task: TaskConfig) -> Seq<char> {
    match task.cwd {
        Some(cwd) => cwd@,
        None => "."@,
    }
}

/// The task `node` as it will run.
pub open spec fn planned_task(
    project: ProjectView,
    directories: Seq<(Seq<char>, Resolution)>,
    node: Seq<char>,
    finalizer: bool,
) -> Result<PlannedTaskView, ProjectFault> {
    let invalid = |message: Seq<char>| ProjectFault::InvalidTask { task: node, message };
    match task_of(project.tasks, node) {
        Err(fault) => Err(fault),
        Ok(task) => match dimensions_of(node) {
            None => Err(bad_reference(node, node)),
            Some(dimensions) => {
                if let Some(message) = instance_problem(list_entries(task.matrix@), dimensions) {
                    Err(invalid(message))
                } else if finalizer && task.cache {
                    Err(invalid("finalizer tasks cannot be cached"@))
                } else {
                    match interpolated(declared_cwd(task), dimensions) {
                        Err(message) => Err(invalid(message)),
                        Ok(cwd) => match resolved_directory(
                            directories,
                            project.root,
                            node,
                            cwd,
                        ) {
                            Err(fault) => Err(fault),
                            Ok(directory) => match resolved_refs(
                                project.tasks,
                                node,
                                texts(task.depends_on@),
                            ) {
                                Err(fault) => Err(fault),
                                Ok(needed) => planned_in(
                                    project,
                                    node,
                                    task,
                                    dimensions,
                                    directory,
                                    needed,
                                    finalizer,
                                ),
                            },
                        },
                    }
                }
            },
        },
    }
}

/// The task `node`, whose directory and dependencies are known.
pub open spec fn planned_in(
    project: ProjectView,
    node: Seq<char>,
    task: TaskConfig,
    dimensions: Dimensions,
    directory: Seq<char>,
    needed: Seq<Seq<char>>,
    finalizer: bool,
) -> Result<PlannedTaskView, ProjectFault> {
    let command = interpolated_list(texts(task.command@), dimensions);
    let env = interpolated_env(text_entries(task.env@), dimensions);
    let inputs = interpolated_list(texts(task.inputs@), dimensions);
    let outputs = interpolated_list(texts(task.outputs@), dimensions);
    if let Err(message) = command {
        Err(ProjectFault::InvalidTask { task: node, message })
    } else if let Err(message) = env {
        Err(ProjectFault::InvalidTask { task: node, message })
    } else if let Err(message) = inputs {
        Err(ProjectFault::InvalidTask { task: node, message })
    } else if let Err(message) = outputs {
        Err(ProjectFault::InvalidTask { task: node, message })
    } else if task.max_output_bytes > usize::MAX {
        Err(
            ProjectFault::InvalidTask {
                task: crate::project::matrix::base_name(node)->0,
                message: "max_output_bytes does not fit in platform usize"@,
            },
        )
    } else {
        Ok(
            PlannedTaskView {
                id: node,
                project: project.name,
                root: project.root,
                command: command->Ok_0,
                stdin: task.stdin,
                cwd: directory,
                env: env->Ok_0,
                cache: task.cache,
                inputs: inputs->Ok_0,
                outputs: outputs->Ok_0,
                cache_env: texts(task.cache_env@),
                timeout: Duration { nanos: (task.timeout_seconds * 1_000_000_000) as u128 },
                max_output_bytes: task.max_output_bytes as usize,
                resource_group: optional_text(task.resource_group),
                retries: task.retries,
                retry_backoff: Duration {
                    nanos: (task.retry_backoff_seconds * 1_000_000_000) as u128,
                },
                finalizer,
                depends_on: needed,
            },
        )
    }
}

proof fn lemma_list_error_stays(values: Seq<Seq<char>>, dimensions: Dimensions, k: int)
    requires
        0 <= k <= values.len(),
        interpolated_list(values.take(k), dimensions) is Err,
    ensures
        interpolated_list(values, dimensions) == interpolated_list(values.take(k), dimensions),
    decreases values.len() - k,
{
    if k < values.len() {
        assert(values.take(k + 1).drop_last() =~= values.take(k));
        lemma_list_error_stays(values, dimensions, k + 1);
    } else {
        assert(values.take(k) =~= values);
    }
}

proof fn lemma_env_error_stays(env: Dimensions, dimensions: Dimensions, k: int)
    requires
        0 <= k <= env.len(),
        interpolated_env(env.take(k), dimensions) is Err,
    ensures
        interpolated_env(env, dimensions) == interpolated_env(env.take(k), dimensions),
    decreases env.len() - k,
{
    if k < env.len() {
        assert(env.take(k + 1).drop_last() =~= env.take(k));
        lemma_env_error_stays(env, dimensions, k + 1);
    } else {
        assert(env.take(k) =~= env);
    }
}

#[verifier::loop_isolation(false)]
fn interpolate_list(values: &Vec<String>, dimensions: &TextMap<String>) -> (r: Result<
    Vec<String>,
    String,
>)
    ensures
        match r {
            Ok(list) => interpolated_list(texts(values@), text_entries(dimensions@)) == Ok::<
                Seq<Seq<char>>,
                Seq<char>,
            >(texts(list@)),
            Err(message) => interpolated_list(texts(values@), text_entries(dimensions@)) == Err::<
                Seq<Seq<char>>,
                Seq<char>,
            >(message@),
        },
{
    let ghost all = texts(values@);
    let ghost d = text_entries(dimensions@);
    let mut list: Vec<String> = Vec::new();
    let mut i: usize = 0;
    assert(all.take(0) =~= seq![]);
    assert(texts(list@) =~= seq![]);
    while i < values.len()
        invariant
            i <= values@.len(),
            interpolated_list(all.take(i as int), d) == Ok::<Seq<Seq<char>>, Seq<char>>(
                texts(list@),
            ),
        decreases values.len() - i,
    {
        assert(all.take(i as int + 1).drop_last() =~= all.take(i as int));
        assert(all.take(i as int + 1).last() == values@[i as int]@);
        match interpolate_value(values[i].as_str(), dimensions) {
            Err(message) => {
                proof {
                    lemma_list_error_stays(all, d, i as int + 1);
                }
                return Err(message);
            },
            Ok(value) => {
                let ghost before = texts(list@);
                list.push(value);
                assert(texts(list@) =~= before.push(value@));
            },
        }
        i += 1;
    }
    assert(all.take(i as int) =~= all);
    Ok(list)
}

#[verifier::loop_isolation(false)]
fn interpolate_env(env: &TextMap<String>, dimensions: &TextMap<String>) -> (r: Result<
    TextMap<String>,
    String,
>)
    ensures
        match r {
            Ok(map) => interpolated_env(text_entries(env@), text_entries(dimensions@)) == Ok::<
                Dimensions,
                Seq<char>,
            >(text_entries(map@)),
            Err(message) => interpolated_env(text_entries(env@), text_entries(dimensions@))
                == Err::<Dimensions, Seq<char>>(message@),
        },
{
    let ghost all = text_entries(env@);
    let ghost d = text_entries(dimensions@);
    let mut map: TextMap<String> = TextMap::new();
    let total: usize = env.len();
    let mut i: usize = 0;
    assert(all.take(0) =~= seq![]);
    assert(text_entries(map@) =~= seq![]);
    while i < total
        invariant
            i <= total == all.len(),
            sorted(env@),
            map@.len() == i,
            forall|j: int| 0 <= j < i ==> (#[trigger] map@[j]).0 == env@[j].0,
            interpolated_env(all.take(i as int), d) == Ok::<Dimensions, Seq<char>>(
                text_entries(map@),
            ),
        decreases total - i,
    {
        assert(all.take(i as int + 1).drop_last() =~= all.take(i as int));
        assert(all.take(i as int + 1).last() == (env@[i as int].0, env@[i as int].1@));
        match interpolate_value(env.value_at(i).as_str(), dimensions) {
            Err(message) => {
                proof {
                    lemma_env_error_stays(all, d, i as int + 1);
                }
                return Err(message);
            },
            Ok(value) => {
                let ghost before = map@;
                let key = env.key_at(i).to_owned();
                proof {
                    assert forall|j: int| 0 <= j < before.len() implies crate::text::text_lt(
                        #[trigger] before[j].0,
                        key@,
                    ) by {
                        assert(before[j].0 == env@[j].0);
                        assert(crate::text::text_lt(env@[j].0, env@[i as int].0));
                    }
                    crate::map::lemma_inserted_last(before, key@, value);
                }
                map.insert(key, value);
                assert(text_entries(map@) =~= text_entries(before).push((key@, value@)));
            },
        }
        i += 1;
    }
    assert(all.take(i as int) =~= all);
    Ok(map)
}

/// The paths of the directories in which the instances of a task would run.
pub open spec fn instance_directories(
    root: Seq<char>,
    cwd: Seq<char>,
    instances: Seq<Dimensions>,
) -> Seq<Seq<char>>
    decreases instances.len(),
{
    if instances.len() == 0 {
        seq![]
    } else {
        let earlier = instance_directories(root, cwd, instances.drop_last());
        match interpolated(cwd, instances.last()) {
            Ok(directory) => earlier.push(join_path(root, directory)),
            Err(_) => earlier,
        }
    }
}

/// The paths of all directories that planning may ask for: those of every
/// instance of every task that keeps the rules.
pub open spec fn wanted_directories(root: Seq<char>, path: Seq<char>, tasks: Tasks) -> Seq<
    Seq<char>,
>
    decreases tasks.len(),
{
    if tasks.len() == 0 {
        seq![]
    } else {
        let earlier = wanted_directories(root, path, tasks.drop_last());
        let (name, task) = tasks.last();
        if task_problem(path, name, task) is Some {
            earlier
        } else {
            earlier + instance_directories(
                root,
                declared_cwd(task),
                instances_of(list_entries(task.matrix@), seq![])->Ok_0,
            )
        }
    }
}

#[verifier::loop_isolation(false)]
fn add_instance_directories(
    root: &str,
    cwd: &str,
    instances: &Vec<TextMap<String>>,
    wanted: &mut Vec<String>,
)
    ensures
        texts(final(wanted)@) == texts(old(wanted)@) + instance_directories(
            root@,
            cwd@,
            instance_list(instances@),
        ),
{
    let ghost all = instance_list(instances@);
    let ghost before = texts(wanted@);
    let mut i: usize = 0;
    assert(all.take(0) =~= seq![]);
    assert(before + instance_directories(root@, cwd@, all.take(0)) =~= before);
    while i < instances.len()
        invariant
            i <= instances@.len(),
            texts(wanted@) == before + instance_directories(root@, cwd@, all.take(i as int)),
        decreases instances.len() - i,
    {
        assert(all.take(i as int + 1).drop_last() =~= all.take(i as int));
        assert(all.take(i as int + 1).last() == text_entries(instances@[i as int]@));
        if let Ok(directory) = interpolate_value(cwd, &instances[i]) {
            let path = join_paths(root, directory.as_str());
            let ghost now = texts(wanted@);
            wanted.push(path);
            assert(texts(wanted@) =~= now.push(path@));
            assert(texts(wanted@) =~= before + instance_directories(
                root@,
                cwd@,
                all.take(i as int + 1),
            ));
        }
        i += 1;
    }
    assert(all.take(i as int) =~= all);
}

/// The paths of all directories that loading and planning may ask for.
#[verifier::loop_isolation(false)]
pub fn directories_to_resolve(root: &str, tasks: &TextMap<TaskConfig>) -> (r: Vec<String>)
    ensures
        texts(r@) == wanted_directories(
            root@,
            join_path(root@, crate::config::CONFIG_FILE_NAME@),
            tasks@,
        ),
{
    let path = crate::config::config_path(root);
    let free: TextMap<String> = TextMap::new();
    assert(text_entries(free@) =~= seq![]);
    let mut wanted: Vec<String> = Vec::new();
    let mut i: usize = 0;
    assert(tasks@.take(0) =~= seq![]);
    assert(texts(wanted@) =~= seq![]);
    while i < tasks.len()
        invariant
            i <= tasks@.len(),
            texts(wanted@) == wanted_directories(root@, path@, tasks@.take(i as int)),
        decreases tasks@.len() - i,
    {
        let task = tasks.value_at(i);
        assert(tasks@.take(i as int + 1).drop_last() =~= tasks@.take(i as int));
        assert(tasks@.take(i as int + 1).last() == tasks@[i as int]);
        if validate_task_config(path.as_str(), tasks.key_at(i), task).is_ok() {
            let cwd: &str = match &task.cwd {
                Some(cwd) => cwd.as_str(),
                None => ".",
            };
            proof {
                law_fixed_instances_are_instances(list_entries(task.matrix@), seq![]);
            }
            if let Ok(instances) = matrix_instances(&task.matrix, &free) {
                add_instance_directories(root, cwd, &instances, &mut wanted);
            }
        }
        i += 1;
    }
    assert(tasks@.take(i as int) =~= tasks@);
    wanted
}

impl Project {
    /// The task `node` as it will run.
    pub fn planned_task(&self, directories: &Directories, node: &str, finalizer: bool) -> (r:
        Result<PlannedTask, ProjectError>)
        ensures
            match r {
                Ok(task) => planned_task(self@, directories.resolved@, node@, finalizer) == Ok::<
                    PlannedTaskView,
                    ProjectFault,
                >(task@),
                Err(e) => planned_task(self@, directories.resolved@, node@, finalizer) == Err::<
                    PlannedTaskView,
                    ProjectFault,
                >(e@),
            },
    {
        let task = match self.task_config(node) {
            Ok(task) => task,
            Err(e) => {
                return Err(e);
            },
        };
        let dimensions = match task_dimensions(node) {
            Ok(dimensions) => dimensions,
            Err(_) => {
                return Err(invalid_reference(node, node));
            },
        };
        if let Err(message) = validate_matrix_instance(&task.matrix, &dimensions) {
            return Err(ProjectError::InvalidTask { task: node.to_owned(), message });
        }
        if finalizer && task.cache {
            return Err(
                ProjectError::InvalidTask {
                    task: node.to_owned(),
                    message: "finalizer tasks cannot be cached".to_owned(),
                },
            );
        }
        let declared: &str = match &task.cwd {
            Some(cwd) => cwd.as_str(),
            None => ".",
        };
        let cwd = match interpolate_value(declared, &dimensions) {
            Ok(cwd) => cwd,
            Err(message) => {
                return Err(ProjectError::InvalidTask { task: node.to_owned(), message });
            },
        };
        let directory = match directories.resolve(self.root.as_str(), node, cwd.as_str()) {
            Ok(directory) => directory,
            Err(e) => {
                return Err(e);
            },
        };
        let current = TaskNode::new(node);
        let needed = match self.resolve_task_refs(&current, &task.depends_on) {
            Ok(needed) => needed,
            Err(e) => {
                return Err(e);
            },
        };
        let command = match interpolate_list(&task.command, &dimensions) {
            Ok(command) => command,
            Err(message) => {
                return Err(ProjectError::InvalidTask { task: node.to_owned(), message });
            },
        };
        let env = match interpolate_env(&task.env, &dimensions) {
            Ok(env) => env,
            Err(message) => {
                return Err(ProjectError::InvalidTask { task: node.to_owned(), message });
            },
        };
        let inputs = match interpolate_list(&task.inputs, &dimensions) {
            Ok(inputs) => inputs,
            Err(message) => {
                return Err(ProjectError::InvalidTask { task: node.to_owned(), message });
            },
        };
        let outputs = match interpolate_list(&task.outputs, &dimensions) {
            Ok(outputs) => outputs,
            Err(message) => {
                return Err(ProjectError::InvalidTask { task: node.to_owned(), message });
            },
        };
        if task.max_output_bytes as u128 > usize::MAX as u128 {
            let base: String = match crate::project::matrix::base_task_name(node) {
                Ok(base) => base,
                Err(_) => String::new(),
            };
            return Err(
                ProjectError::InvalidTask {
                    task: base,
                    message: "max_output_bytes does not fit in platform usize".to_owned(),
                },
            );
        }
        Ok(
            PlannedTask {
                id: node.to_owned(),
                project: self.name.clone(),
                root: self.root.clone(),
                command,
                stdin: task.stdin,
                cwd: directory,
                env,
                cache: task.cache,
                inputs,
                outputs,
                cache_env: copy_texts(&task.cache_env),
                timeout: Duration::from_secs(task.timeout_seconds),
                max_output_bytes: task.max_output_bytes as usize,
                resource_group: copy_optional(&task.resource_group),
                retries: task.retries,
                retry_backoff: Duration::from_secs(task.retry_backoff_seconds),
                finalizer,
                depends_on: needed,
            },
        )
    }
}

} // verus!
