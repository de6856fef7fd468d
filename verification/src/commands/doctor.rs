//! `mono doctor` — validate the complete root-project task graph.

use vstd::prelude::*;

use crate::config::{MonoConfig, TaskConfig};
use crate::map::{keys, lookup};
use crate::path::{components, join_path};
use crate::project::error::{fault_text, ProjectError, ProjectFault};
use crate::project::graph::{
    dependencies, depth_limit, instance_names, root_ids, root_set, task_of, visited, visited_all, with_ids,
};
use crate::project::matrix::{base_name, dimensions_of, interpolated, list_entries, text_entries};
use crate::project::planned::{interpolated_list, planned_task};
use crate::project::validate::{
    argument_problem, has_instance_mark, is_plain_name, resolved_directory, task_problem,
    Directories, Resolution,
};
use crate::project::{
    declared_task_problem, described, finalized, first_problem, graph_name_problem, graph_problem,
    graph_reference_problem, load_problem, manifest_problem, pipeline_name_problem,
    pipeline_plan_problem, pipeline_problem, pipeline_reference_problem, plan_of, planned_ids,
    planned_tasks, FinalizedOrder, Project,
};
use crate::text::{find, lemma_find_bounds, lemma_position_bounds, optional_text, texts};

verus! {

/// Expected failures of [`doctor`].
#[derive(Debug, PartialEq, Eq)]
pub enum DoctorError {
    Project(ProjectError),
}

impl View for DoctorError {
    type V = ProjectFault;

    open spec fn view(&self) -> ProjectFault {
        match *self {
            DoctorError::Project(error) => error@,
        }
    }
}

impl DoctorError {
    /// The text that reports the error.
    pub fn message(&self) -> (r: String)
        ensures
            r@ == fault_text(self@),
    {
        match self {
            DoctorError::Project(error) => error.message(),
        }
    }

    /// The text of the failure that this one wraps.
    pub fn source(&self) -> (r: Option<String>)
        ensures
            optional_text(r) == Some(fault_text(self@)),
    {
        Some(self.message())
    }
}

/// Validate that the manifest at `root` describes a healthy project and return
/// the root.
///
/// The root is part of the answer because `mono check` reports it; a caller
/// that discarded it and re-loaded the manifest to learn it would be a second
/// authority on what a healthy project is.
pub fn doctor(root: &str, config: MonoConfig, directories: &Directories) -> (r: Result<
    String,
    DoctorError,
>)
    ensures
        match r {
            Ok(found) => load_problem(root@, config, directories.resolved@) is None && found@
                == root@,
            Err(e) => load_problem(root@, config, directories.resolved@) == Some(e@),
        },
{
    match Project::load(root, config, directories) {
        Ok(project) => Ok(project.root),
        Err(e) => Err(DoctorError::Project(e)),
    }
}

/// Whether a text is made of letters, blanks and full stops alone.
spec fn is_simple(value: Seq<char>) -> bool {
    forall|i: int|
        0 <= i < value.len() ==> ('a' <= #[trigger] value[i] && value[i] <= 'z') || value[i] == ' '
            || value[i] == '.'
}

proof fn lemma_simple(value: Seq<char>)
    requires
        is_simple(value),
    ensures
        value.len() > 0 ==> is_plain_name(value),
        !value.contains('\0'),
        !has_instance_mark(value),
        base_name(value) == Some(value),
        dimensions_of(value) == Some(Seq::<(Seq<char>, Seq<char>)>::empty()),
        interpolated(value, seq![]) == Ok::<Seq<char>, Seq<char>>(value),
{
    reveal_strlit("${");
    lemma_position_bounds(value, '[');
    lemma_find_bounds(value, "${"@);
    if let Some(i) = find(value, "${"@) {
        assert(value.subrange(i, i + 2)[0] == value[i]);
    }
}

proof fn lemma_template_words()
    ensures
        is_simple("project"@) && "project"@.len() > 0,
        is_simple("ci"@) && "ci"@.len() > 0,
        is_simple("check"@) && "check"@.len() > 0,
        is_simple("echo"@) && "echo"@.len() > 0,
        is_simple("configure this "@ + "task"@),
        is_simple("."@),
{
    reveal_strlit("project");
    reveal_strlit("ci");
    reveal_strlit("check");
    reveal_strlit("echo");
    reveal_strlit("configure this ");
    reveal_strlit("task");
    reveal_strlit(".");
}

proof fn lemma_template_is_plain(task: TaskConfig)
    requires
        task.is_plain(),
    ensures
        texts(task.depends_on@) == Seq::<Seq<char>>::empty(),
        texts(task.inputs@) == Seq::<Seq<char>>::empty(),
        texts(task.outputs@) == Seq::<Seq<char>>::empty(),
        list_entries(task.matrix@) == Seq::<(Seq<char>, Seq<Seq<char>>)>::empty(),
        text_entries(task.env@) == Seq::<(Seq<char>, Seq<char>)>::empty(),
{
    assert(texts(task.depends_on@) =~= seq![]);
    assert(texts(task.inputs@) =~= seq![]);
    assert(texts(task.outputs@) =~= seq![]);
    assert(list_entries(task.matrix@) =~= seq![]);
    assert(text_entries(task.env@) =~= seq![]);
}

proof fn lemma_template_task(path: Seq<char>, config: MonoConfig)
    requires
        config.is_template(),
    ensures
        task_problem(path, "check"@, config.tasks@[0].1) is None,
{
    let task = config.tasks@[0].1;
    lemma_template_words();
    lemma_template_is_plain(task);
    lemma_simple("check"@);
    lemma_simple("echo"@);
    lemma_simple("configure this "@ + "task"@);
    assert(argument_problem(texts(task.command@), 0) is None) by {
        reveal_with_fuel(argument_problem, 3);
    }
}

proof fn lemma_template_manifest(
    root: Seq<char>,
    config: MonoConfig,
    directories: Seq<(Seq<char>, Resolution)>,
)
    requires
        config.is_template(),
    ensures
        manifest_problem(root, config, directories) is None,
        graph_problem(config.tasks@) is None,
{
    lemma_template_words();
    lemma_simple("project"@);
    lemma_simple("ci"@);
    lemma_simple("check"@);
    let path = join_path(root, crate::config::CONFIG_FILE_NAME@);
    let tasks = config.tasks@;
    let pipelines = config.pipelines@;
    lemma_template_task(path, config);
    lemma_template_is_plain(tasks[0].1);
    reveal_with_fuel(first_problem, 2);
    let references = texts(pipelines[0].1.tasks@) + texts(pipelines[0].1.finally@);
    assert(references =~= seq!["check"@]);
    assert(pipeline_reference_problem(path, "ci"@, references)(0) is None);
    assert(pipeline_problem(path, pipelines)(0) is None);
    assert(pipeline_name_problem(path, pipelines)(0) is None);
    assert(declared_task_problem(path, directories, root, tasks)(0) is None);
    assert(graph_name_problem(tasks)(0) is None);
    assert(graph_reference_problem(tasks)(0) is None);
}

proof fn lemma_template_order(root: Seq<char>, config: MonoConfig)
    requires
        config.is_template(),
    ensures
        planned_ids(described(root, config), Some("ci"@), seq![]) == Ok::<
            Seq<Seq<char>>,
            ProjectFault,
        >(seq!["check"@]),
{
    lemma_template_words();
    lemma_simple("check"@);
    let tasks = config.tasks@;
    let task = tasks[0].1;
    lemma_template_is_plain(task);
    let ids = seq!["check"@];
    let none: Seq<Seq<char>> = seq![];
    assert(task_of(tasks, "check"@) == Ok::<TaskConfig, ProjectFault>(task));
    assert(root_ids(tasks, "check"@) == Ok::<Seq<Seq<char>>, ProjectFault>(ids)) by {
        let dimensions: Seq<(Seq<char>, Seq<char>)> = seq![];
        assert(instance_names("check"@, seq![dimensions]) =~= ids);
    }
    assert(ids.drop_last() =~= none);
    let first: Seq<(Seq<char>, bool)> = seq![];
    assert(with_ids(first, ids) == seq![("check"@, true)]) by {
        assert(with_ids(first, none) == first);
    }
    assert(root_set(tasks, ids) == Ok::<Seq<(Seq<char>, bool)>, ProjectFault>(
        seq![("check"@, true)],
    )) by {
        assert(root_set(tasks, none) == Ok::<Seq<(Seq<char>, bool)>, ProjectFault>(first));
    }
    assert(keys(seq![("check"@, true)]) =~= ids);
    let limit = depth_limit(tasks);
    assert(dependencies(tasks, "check"@) == Ok::<Seq<Seq<char>>, ProjectFault>(none));
    assert(visited(tasks, "check"@, none, none, limit) == Ok::<Seq<Seq<char>>, ProjectFault>(
        none.push("check"@),
    )) by {
        assert(visited_all(tasks, none, none, none.push("check"@), (limit - 1) as nat) == Ok::<
            Seq<Seq<char>>,
            ProjectFault,
        >(none));
    }
    assert(none.push("check"@) =~= ids);
    assert(visited_all(tasks, none, none, none, limit) == Ok::<Seq<Seq<char>>, ProjectFault>(
        none,
    ));
    assert(visited_all(tasks, ids, none, none, limit) == Ok::<Seq<Seq<char>>, ProjectFault>(ids));
    reveal_with_fuel(lookup, 2);
}

proof fn lemma_template_planned(
    root: Seq<char>,
    config: MonoConfig,
    directories: Seq<(Seq<char>, Resolution)>,
)
    requires
        config.is_template(),
        lookup(directories, join_path(root, "."@)) matches Some(Resolution::Directory(found))
            && found@ == root,
    ensures
        planned_task(described(root, config), directories, "check"@, false) is Ok,
{
    lemma_template_words();
    lemma_simple("check"@);
    lemma_simple("echo"@);
    lemma_simple("configure this "@ + "task"@);
    lemma_simple("."@);
    let task = config.tasks@[0].1;
    lemma_template_is_plain(task);
    let command = texts(task.command@);
    assert(command.drop_last() =~= seq!["echo"@]);
    assert(command.drop_last().drop_last() =~= seq![]);
    assert(interpolated_list(command, seq![]) is Ok) by {
        reveal_with_fuel(interpolated_list, 3);
    }
    assert(components(root).subrange(0, components(root).len() as int) =~= components(root));
    assert(task_of(config.tasks@, "check"@) == Ok::<TaskConfig, ProjectFault>(task));
    assert(resolved_directory(directories, root, "check"@, "."@) is Ok);
}

/// The template is a healthy project wherever its root is a directory: nothing
/// is wrong with it.
pub proof fn law_the_template_is_healthy(
    root: Seq<char>,
    config: MonoConfig,
    directories: Seq<(Seq<char>, Resolution)>,
)
    requires
        config.is_template(),
        lookup(directories, join_path(root, "."@)) matches Some(Resolution::Directory(found))
            && found@ == root,
    ensures
        load_problem(root, config, directories) is None,
{
    let project = described(root, config);
    let order = seq!["check"@];
    let plan = FinalizedOrder { order, roots: seq![] };
    lemma_template_manifest(root, config, directories);
    lemma_template_order(root, config);
    lemma_template_planned(root, config, directories);
    assert(texts(config.pipelines@[0].1.finally@) =~= seq![]);
    assert(lookup(config.pipelines@, "ci"@) == Some(config.pipelines@[0].1));
    assert(finalized(config.tasks@, seq![], order) == Ok::<FinalizedOrder, ProjectFault>(plan));
    assert(plan_of(project, directories, Some("ci"@), seq![]) is Ok) by {
        reveal_with_fuel(planned_tasks, 2);
    }
    reveal_with_fuel(first_problem, 2);
    assert(pipeline_plan_problem(project, directories)(0) is None);
}

} // verus!
