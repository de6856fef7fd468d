//! What is promised of the tasks that a manifest declares.

use vstd::prelude::*;

use crate::config::{MonoConfig, StdinMode, TaskConfig, SUPPORTED_SCHEMA};
use crate::map::{keys, law_a_key_gives_the_value_held_with_it, law_insert_lookup, lookup, sorted};
use crate::path::{components, is_below, join_path};
use crate::project::error::ProjectFault;
use crate::project::graph::{
    dependencies, instance_names, resolved_ref, resolved_refs, root_ids, root_set, task_of,
    with_ids, IdSet, Tasks,
};
use crate::project::matrix::{
    base_name, dimensions_of, first_mismatch, instance_name, instance_problem, instances_of,
    interpolated, list_entries, text_entries, Dimensions,
};
use crate::project::planned::{
    declared_cwd, instance_directories, interpolated_env, interpolated_list, planned_task,
    wanted_directories,
};
use crate::project::validate::{
    argument_problem, environment_problem, has_positive, is_relative_path, matrix_problem,
    matrix_size, pattern_body, pattern_problem, patterns_problem, resolved_directory, task_problem,
    values_problem, Resolution,
};
use crate::project::{
    declared_task_problem, edges_of, first_problem, graph_problem, graph_reference_problem,
    load_problem, pipeline_name_problem, pipeline_plan_problem, pipeline_problem,
    pipeline_reference_problem, plan_of, requested_names, ProjectView,
};
use crate::text::{any, is_control, optional_text, split, texts};

verus! {

/// Whether `filled` holds what each of `values` becomes when its placeholders
/// are filled in.
pub open spec fn each_filled_in(
    filled: Seq<Seq<char>>,
    values: Seq<Seq<char>>,
    dimensions: Dimensions,
) -> bool {
    &&& filled.len() == values.len()
    &&& forall|i: int|
        0 <= i < values.len() ==> interpolated(#[trigger] values[i], dimensions) == Ok::<
            Seq<char>,
            Seq<char>,
        >(filled[i])
}

/// A list is filled in text by text; it cannot be exactly where one of its
/// texts cannot, and the first such text says why.
pub proof fn law_lists_are_filled_in_text_by_text(values: Seq<Seq<char>>, dimensions: Dimensions)
    ensures
        match interpolated_list(values, dimensions) {
            Ok(filled) => each_filled_in(filled, values, dimensions),
            Err(message) => exists|k: int|
                0 <= k < values.len() && interpolated(#[trigger] values[k], dimensions) == Err::<
                    Seq<char>,
                    Seq<char>,
                >(message) && forall|j: int|
                    0 <= j < k ==> interpolated(#[trigger] values[j], dimensions) is Ok,
        },
    decreases values.len(),
{
    if values.len() > 0 {
        let front = values.drop_last();
        law_lists_are_filled_in_text_by_text(front, dimensions);
        assert(forall|i: int| 0 <= i < front.len() ==> front[i] == #[trigger] values[i]);
        match interpolated_list(front, dimensions) {
            Ok(earlier) => {
                assert forall|i: int| 0 <= i < front.len() implies interpolated(
                    #[trigger] values[i],
                    dimensions,
                ) is Ok by {
                    assert(front[i] == values[i]);
                }
                assert(values[values.len() - 1] == values.last());
                if let Ok(filled) = interpolated_list(values, dimensions) {
                    assert forall|i: int| 0 <= i < values.len() implies interpolated(
                        #[trigger] values[i],
                        dimensions,
                    ) == Ok::<Seq<char>, Seq<char>>(filled[i]) by {
                        if i < front.len() {
                            assert(front[i] == values[i]);
                            assert(filled[i] == earlier[i]);
                        }
                    }
                }
            },
            Err(message) => {
                let k = choose|k: int|
                    0 <= k < front.len() && interpolated(#[trigger] front[k], dimensions) == Err::<
                        Seq<char>,
                        Seq<char>,
                    >(message) && forall|j: int|
                        0 <= j < k ==> interpolated(#[trigger] front[j], dimensions) is Ok;
                assert(values[k] == front[k]);
                assert forall|j: int| 0 <= j < k implies interpolated(
                    #[trigger] values[j],
                    dimensions,
                ) is Ok by {
                    assert(front[j] == values[j]);
                }
            },
        }
    }
}

/// An environment keeps its variables; each value is filled in.
pub proof fn law_environments_are_filled_in_value_by_value(env: Dimensions, dimensions: Dimensions)
    ensures
        match interpolated_env(env, dimensions) {
            Ok(filled) => filled.len() == env.len() && forall|i: int|
                0 <= i < env.len() ==> (#[trigger] filled[i]).0 == env[i].0 && interpolated(
                    env[i].1,
                    dimensions,
                ) == Ok::<Seq<char>, Seq<char>>(filled[i].1),
            Err(message) => exists|k: int|
                0 <= k < env.len() && interpolated((#[trigger] env[k]).1, dimensions) == Err::<
                    Seq<char>,
                    Seq<char>,
                >(message),
        },
    decreases env.len(),
{
    if env.len() > 0 {
        let front = env.drop_last();
        law_environments_are_filled_in_value_by_value(front, dimensions);
        match interpolated_env(front, dimensions) {
            Ok(earlier) => {
                assert(env[env.len() - 1] == env.last());
                if let Ok(filled) = interpolated_env(env, dimensions) {
                    assert forall|i: int| 0 <= i < env.len() implies (#[trigger] filled[i]).0
                        == env[i].0 && interpolated(env[i].1, dimensions) == Ok::<
                        Seq<char>,
                        Seq<char>,
                    >(filled[i].1) by {
                        if i < front.len() {
                            assert(filled[i] == earlier[i]);
                            assert(front[i] == env[i]);
                        }
                    }
                }
            },
            Err(message) => {
                let k = choose|k: int|
                    0 <= k < front.len() && interpolated((#[trigger] front[k]).1, dimensions)
                        == Err::<Seq<char>, Seq<char>>(message);
                assert(env[k] == front[k]);
            },
        }
    }
}

/// A planned task is what its manifest declares, with the placeholders of its
/// dimensions filled in: every argument, every value of its environment, every
/// input and output and its directory. Everything else it takes as it is.
pub proof fn law_a_planned_task_is_what_its_manifest_declares(
    project: ProjectView,
    directories: Seq<(Seq<char>, Resolution)>,
    node: Seq<char>,
    finalizer: bool,
    declared: TaskConfig,
    dimensions: Dimensions,
)
    requires
        task_of(project.tasks, node) == Ok::<TaskConfig, ProjectFault>(declared),
        dimensions_of(node) == Some(dimensions),
    ensures
        planned_task(project, directories, node, finalizer) matches Ok(task) ==> {
            &&& task.id == node
            &&& task.project == project.name
            &&& task.root == project.root
            &&& task.finalizer == finalizer
            &&& each_filled_in(task.command, texts(declared.command@), dimensions)
            &&& each_filled_in(task.inputs, texts(declared.inputs@), dimensions)
            &&& each_filled_in(task.outputs, texts(declared.outputs@), dimensions)
            &&& task.env.len() == declared.env@.len()
            &&& forall|i: int|
                0 <= i < task.env.len() ==> (#[trigger] task.env[i]).0 == declared.env@[i].0
                    && interpolated(declared.env@[i].1@, dimensions) == Ok::<Seq<char>, Seq<char>>(
                    task.env[i].1,
                )
            &&& task.cache_env == texts(declared.cache_env@)
            &&& task.stdin == declared.stdin
            &&& task.cache == declared.cache
            &&& task.timeout.nanos == declared.timeout_seconds * 1_000_000_000
            &&& task.max_output_bytes == declared.max_output_bytes
            &&& task.resource_group == optional_text(declared.resource_group)
            &&& task.retries == declared.retries
            &&& task.retry_backoff.nanos == declared.retry_backoff_seconds * 1_000_000_000
            &&& dependencies(project.tasks, node) == Ok::<Seq<Seq<char>>, ProjectFault>(
                task.depends_on,
            )
            &&& interpolated(
                match declared.cwd {
                    Some(cwd) => cwd@,
                    None => "."@,
                },
                dimensions,
            ) matches Ok(cwd) && resolves_below(directories, project.root, cwd, task.cwd)
        },
{
    law_lists_are_filled_in_text_by_text(texts(declared.command@), dimensions);
    law_lists_are_filled_in_text_by_text(texts(declared.inputs@), dimensions);
    law_lists_are_filled_in_text_by_text(texts(declared.outputs@), dimensions);
    let env = text_entries(declared.env@);
    law_environments_are_filled_in_value_by_value(env, dimensions);
    if let Ok(task) = planned_task(project, directories, node, finalizer) {
        let cwd = interpolated(declared_cwd(declared), dimensions)->Ok_0;
        assert(resolved_directory(directories, project.root, node, cwd) == Ok::<
            Seq<char>,
            ProjectFault,
        >(task.cwd));
        assert(env.len() == declared.env@.len());
        assert forall|i: int| 0 <= i < task.env.len() implies (#[trigger] task.env[i]).0
            == declared.env@[i].0 && interpolated(declared.env@[i].1@, dimensions) == Ok::<
            Seq<char>,
            Seq<char>,
        >(task.env[i].1) by {
            assert(env[i] == (declared.env@[i].0, declared.env@[i].1@));
        }
    }
}

/// Whether resolving the path `cwd` below `root` gave a directory, below the
/// root too.
pub open spec fn resolves_below(
    directories: Seq<(Seq<char>, Resolution)>,
    root: Seq<char>,
    cwd: Seq<char>,
    directory: Seq<char>,
) -> bool {
    &&& lookup(directories, join_path(root, cwd)) matches Some(Resolution::Directory(canonical))
        && canonical@ == directory
    &&& is_below(directory, root)
}

/// A directory is resolved exactly where resolving gave a directory below the
/// root.
pub proof fn law_only_directories_below_the_root_are_resolved(
    directories: Seq<(Seq<char>, Resolution)>,
    root: Seq<char>,
    task: Seq<char>,
    cwd: Seq<char>,
)
    ensures
        match resolved_directory(directories, root, task, cwd) {
            Ok(directory) => resolves_below(directories, root, cwd, directory),
            Err(_) => forall|directory: Seq<char>|
                !#[trigger] resolves_below(directories, root, cwd, directory),
        },
{
}

/// Whether every character of `value` may stand in a name.
pub open spec fn has_plain_characters(value: Seq<char>) -> bool {
    forall|i: int| 0 <= i < value.len() ==> !is_control(#[trigger] value[i])
}

pub proof fn lemma_plain(value: Seq<char>)
    ensures
        any(value, |c: char| is_control(c)) == !has_plain_characters(value),
        has_plain_characters(value) ==> !value.contains('\0'),
{
    let control = |c: char| is_control(c);
    if !has_plain_characters(value) {
        let i = choose|i: int| 0 <= i < value.len() && is_control(#[trigger] value[i]);
        assert(control(value[i]));
    }
    if value.contains('\0') {
        let i = choose|i: int| 0 <= i < value.len() && value[i] == '\0';
        assert(is_control(value[i]));
    }
}

/// Whether a path is relative, without empty segments and without a way up.
pub open spec fn is_sound_body(body: Seq<char>) -> bool {
    &&& body.len() > 0
    &&& body[0] != '/'
    &&& !body.contains('\0')
    &&& forall|i: int|
        0 <= i < split(body, '/').len() ==> (#[trigger] split(body, '/')[i]).len() > 0 && split(
            body,
            '/',
        )[i] != ".."@
}

/// Whether a pattern, without the mark before it, is a relative path without
/// empty segments and without a way up.
pub open spec fn is_sound_pattern(pattern: Seq<char>) -> bool {
    if pattern.len() > 0 && pattern[0] == '!' {
        is_sound_body(pattern.skip(1))
    } else {
        is_sound_body(pattern)
    }
}

/// Whether a dimension of a matrix has a name and different values that can
/// stand in the name of an instance.
pub open spec fn is_sound_dimension(dimension: Seq<char>, values: Seq<Seq<char>>) -> bool {
    &&& dimension.len() > 0
    &&& has_plain_characters(dimension)
    &&& values.len() > 0
    &&& forall|i: int|
        0 <= i < values.len() ==> has_plain_characters(#[trigger] values[i])
            && !values[i].contains('[') && !values[i].contains(']') && !values[i].contains('=')
            && !values[i].contains(',')
    &&& forall|i: int, j: int|
        0 <= i < j < values.len() ==> #[trigger] values[i] != #[trigger] values[j]
}

/// A pattern is accepted exactly where it is sound.
pub proof fn law_accepted_patterns_stay_inside(pattern: Seq<char>)
    ensures
        pattern_problem(pattern) is None <==> is_sound_pattern(pattern),
{
    reveal_strlit("!");
    let body = pattern_body(pattern);
    if "!"@.is_prefix_of(pattern) {
        assert(pattern.subrange(0, 1)[0] == pattern[0]);
    } else if pattern.len() > 0 && pattern[0] == '!' {
        assert(pattern.subrange(0, 1) =~= "!"@);
        assert("!"@.is_prefix_of(pattern));
    }
    assert(body == if pattern.len() > 0 && pattern[0] == '!' {
        pattern.skip(1)
    } else {
        pattern
    });
    let parts = split(body, '/');
    let none = Seq::<char>::empty();
    if parts.contains(none) {
        let i = choose|i: int| 0 <= i < parts.len() && parts[i] == none;
        assert(parts[i].len() == 0);
    }
    if parts.contains(".."@) {
        let i = choose|i: int| 0 <= i < parts.len() && parts[i] == ".."@;
        assert(parts[i] == ".."@);
    }
    if !parts.contains(none) && !parts.contains(".."@) {
        assert forall|i: int| 0 <= i < parts.len() implies (#[trigger] parts[i]).len() > 0
            && parts[i] != ".."@ by {
            if parts[i].len() == 0 {
                assert(parts[i] =~= none);
            }
        }
    }
}

pub proof fn lemma_arguments(command: Seq<Seq<char>>, from: int)
    requires
        0 <= from <= command.len(),
    ensures
        argument_problem(command, from) is None <==> forall|i: int|
            from <= i < command.len() ==> !(#[trigger] command[i]).contains('\0'),
    decreases command.len() - from,
{
    if from < command.len() {
        lemma_arguments(command, from + 1);
    }
}

pub proof fn lemma_environment(env: Dimensions)
    ensures
        environment_problem(env) is None <==> forall|i: int|
            0 <= i < env.len() ==> !(#[trigger] env[i]).0.contains('\0') && !env[i].1.contains('\0'),
    decreases env.len(),
{
    if env.len() > 0 {
        let rest = env.drop_first();
        lemma_environment(rest);
        if environment_problem(env) is None {
            assert forall|i: int| 0 <= i < env.len() implies !(#[trigger] env[i]).0.contains('\0')
                && !env[i].1.contains('\0') by {
                if i > 0 {
                    assert(env[i] == rest[i - 1]);
                }
            }
        }
        if forall|i: int|
            0 <= i < env.len() ==> !(#[trigger] env[i]).0.contains('\0') && !env[i].1.contains(
                '\0',
            ) {
            assert(!env[0].0.contains('\0'));
            assert forall|i: int| 0 <= i < rest.len() implies !(#[trigger] rest[i]).0.contains('\0')
                && !rest[i].1.contains('\0') by {
                assert(rest[i] == env[i + 1]);
            }
        }
    }
}

pub proof fn lemma_patterns(patterns: Seq<Seq<char>>)
    ensures
        patterns_problem(patterns) is None <==> forall|i: int|
            0 <= i < patterns.len() ==> is_sound_pattern(#[trigger] patterns[i]),
    decreases patterns.len(),
{
    if patterns.len() > 0 {
        let rest = patterns.drop_first();
        lemma_patterns(rest);
        law_accepted_patterns_stay_inside(patterns[0]);
        if patterns_problem(patterns) is None {
            assert forall|i: int| 0 <= i < patterns.len() implies is_sound_pattern(
                #[trigger] patterns[i],
            ) by {
                if i > 0 {
                    assert(patterns[i] == rest[i - 1]);
                }
            }
        }
        if forall|i: int| 0 <= i < patterns.len() ==> is_sound_pattern(#[trigger] patterns[i]) {
            assert(is_sound_pattern(patterns[0]));
            assert forall|i: int| 0 <= i < rest.len() implies is_sound_pattern(
                #[trigger] rest[i],
            ) by {
                assert(rest[i] == patterns[i + 1]);
            }
        }
    }
}

/// Whether a value can stand in the name of an instance.
pub open spec fn is_sound_value(value: Seq<char>) -> bool {
    &&& has_plain_characters(value)
    &&& !value.contains('[')
    &&& !value.contains(']')
    &&& !value.contains('=')
    &&& !value.contains(',')
}

proof fn lemma_values(dimension: Seq<char>, values: Seq<Seq<char>>, from: int)
    requires
        0 <= from <= values.len(),
    ensures
        values_problem(dimension, values, from) is None <==> (forall|i: int|
            from <= i < values.len() ==> is_sound_value(#[trigger] values[i])) && (forall|
            i: int,
            j: int,
        |
            0 <= i < j && from <= j < values.len() ==> #[trigger] values[i] != #[trigger] values[j]),
    decreases values.len() - from,
{
    if from < values.len() {
        lemma_values(dimension, values, from + 1);
        lemma_plain(values[from]);
        let before = values.take(from);
        if before.contains(values[from]) {
            let i = choose|i: int| 0 <= i < before.len() && before[i] == values[from];
            assert(values[i] == values[from]);
        } else {
            assert forall|i: int| 0 <= i < from implies #[trigger] values[i] != values[from] by {
                assert(before[i] == values[i]);
            }
        }
    }
}

proof fn lemma_matrix(path: Seq<char>, task: Seq<char>, matrix: Seq<(Seq<char>, Seq<Seq<char>>)>)
    ensures
        matrix_problem(path, task, matrix) is None <==> forall|i: int|
            0 <= i < matrix.len() ==> is_sound_dimension(
                (#[trigger] matrix[i]).0,
                matrix[i].1,
            ),
    decreases matrix.len(),
{
    if matrix.len() > 0 {
        let rest = matrix.drop_first();
        lemma_matrix(path, task, rest);
        let (dimension, values) = matrix[0];
        lemma_plain(dimension);
        lemma_values(dimension, values, 0);
        assert((forall|i: int| 0 <= i < values.len() ==> is_sound_value(#[trigger] values[i]))
            <==> (forall|i: int|
            0 <= i < values.len() ==> has_plain_characters(#[trigger] values[i])
                && !values[i].contains('[') && !values[i].contains(']') && !values[i].contains('=')
                && !values[i].contains(',')));
        assert(matrix_problem(path, task, matrix) is None <==> is_sound_dimension(dimension, values)
            && matrix_problem(path, task, rest) is None);
        if matrix_problem(path, task, matrix) is None {
            assert forall|i: int| 0 <= i < matrix.len() implies is_sound_dimension(
                (#[trigger] matrix[i]).0,
                matrix[i].1,
            ) by {
                if i > 0 {
                    assert(matrix[i] == rest[i - 1]);
                }
            }
        }
        if forall|i: int|
            0 <= i < matrix.len() ==> is_sound_dimension((#[trigger] matrix[i]).0, matrix[i].1) {
            assert(is_sound_dimension(matrix[0].0, matrix[0].1));
            assert forall|i: int| 0 <= i < rest.len() implies is_sound_dimension(
                (#[trigger] rest[i]).0,
                rest[i].1,
            ) by {
                assert(rest[i] == matrix[i + 1]);
            }
        }
    }
}

/// Whether some pattern does not begin with a mark.
pub open spec fn selects_something(patterns: Seq<Seq<char>>) -> bool {
    exists|i: int|
        0 <= i < patterns.len() && ((#[trigger] patterns[i]).len() == 0 || patterns[i][0] != '!')
}

pub proof fn lemma_positive(patterns: Seq<Seq<char>>)
    ensures
        has_positive(patterns) == selects_something(patterns),
{
    reveal_strlit("!");
    assert forall|i: int| 0 <= i < patterns.len() implies "!"@.is_prefix_of(#[trigger] patterns[i])
        == (patterns[i].len() > 0 && patterns[i][0] == '!') by {
        let p = patterns[i];
        if "!"@.is_prefix_of(p) {
            assert(p.subrange(0, 1)[0] == p[0]);
        } else if p.len() > 0 && p[0] == '!' {
            assert(p.subrange(0, 1) =~= "!"@);
        }
    }
}

/// Whether a path is relative, is not empty and does not lead up.
pub open spec fn stays_inside(path: Seq<char>) -> bool {
    &&& path.len() > 0
    &&& forall|i: int|
        0 <= i < components(path).len() ==> (#[trigger] components(path)[i]) != "/"@ && components(
            path,
        )[i] != ".."@
}

pub proof fn lemma_stays_inside(path: Seq<char>)
    ensures
        is_relative_path(path) == stays_inside(path),
{
    let parts = components(path);
    if parts.contains("/"@) {
        let i = choose|i: int| 0 <= i < parts.len() && parts[i] == "/"@;
        assert(parts[i] == "/"@);
    }
    if parts.contains(".."@) {
        let i = choose|i: int| 0 <= i < parts.len() && parts[i] == ".."@;
        assert(parts[i] == ".."@);
    }
}

/// The rules that a declared task has to keep, apart from its matrix.
pub open spec fn keeps_the_rules(name: Seq<char>, task: TaskConfig) -> bool {
    let command = texts(task.command@);
    let inputs = texts(task.inputs@);
    let outputs = texts(task.outputs@);
    let env = text_entries(task.env@);
    &&& name.len() > 0 && has_plain_characters(name)
    &&& !name.contains('[') && !name.contains(']') && !name.contains('=') && !name.contains(',')
    &&& command.len() > 0 && command[0].len() > 0
    &&& forall|i: int| 0 <= i < command.len() ==> !(#[trigger] command[i]).contains('\0')
    &&& forall|i: int|
        0 <= i < env.len() ==> !(#[trigger] env[i]).0.contains('\0') && !env[i].1.contains('\0')
    &&& task.cache ==> selects_something(inputs) && task.stdin != StdinMode::Inherit
    &&& outputs.len() > 0 ==> selects_something(outputs)
    &&& forall|i: int| 0 <= i < inputs.len() ==> is_sound_pattern(#[trigger] inputs[i])
    &&& forall|i: int| 0 <= i < outputs.len() ==> is_sound_pattern(#[trigger] outputs[i])
    &&& forall|i: int|
        0 <= i < task.cache_env@.len() ==> (#[trigger] task.cache_env@[i])@.len() > 0
            && !task.cache_env@[i]@.contains('=') && !task.cache_env@[i]@.contains('\0')
    &&& task.timeout_seconds > 0
    &&& 0 < task.max_output_bytes <= usize::MAX
    &&& task.retries > 0 ==> task.retry_backoff_seconds <= 24 * 60 * 60
    &&& task.resource_group matches Some(group) ==> group@.len() > 0 && has_plain_characters(group@)
        && !group@.contains(':')
    &&& task.cwd matches Some(cwd) ==> stays_inside(cwd@)
}

/// A declared task is accepted exactly where it keeps every rule, each
/// dimension of its matrix is sound, and the matrix has no more than 1024
/// instances.
pub proof fn law_an_accepted_task_keeps_every_rule(
    path: Seq<char>,
    name: Seq<char>,
    task: TaskConfig,
)
    ensures
        task_problem(path, name, task) is None <==> keeps_the_rules(name, task) && (forall|i: int|
            0 <= i < task.matrix@.len() ==> is_sound_dimension(
                (#[trigger] list_entries(task.matrix@)[i]).0,
                list_entries(task.matrix@)[i].1,
            )) && matrix_size(list_entries(task.matrix@)) <= 1024,
{
    lemma_plain(name);
    lemma_arguments(texts(task.command@), 0);
    lemma_environment(text_entries(task.env@));
    lemma_positive(texts(task.inputs@));
    lemma_positive(texts(task.outputs@));
    lemma_patterns(texts(task.inputs@));
    lemma_patterns(texts(task.outputs@));
    if let Some(group) = task.resource_group {
        lemma_plain(group@);
    }
    if let Some(cwd) = task.cwd {
        lemma_stays_inside(cwd@);
    }
    let matrix = list_entries(task.matrix@);
    assert(matrix.len() == task.matrix@.len());
    lemma_matrix(path, name, matrix);
}

/// A matrix has as many instances as its dimensions have combinations.
pub proof fn law_a_matrix_has_as_many_instances_as_combinations(
    matrix: Seq<(Seq<char>, Seq<Seq<char>>)>,
)
    ensures
        instances_of(matrix, seq![]) matches Ok(instances) && instances.len() == matrix_size(matrix),
    decreases matrix.len(),
{
    if matrix.len() > 0 {
        law_a_matrix_has_as_many_instances_as_combinations(matrix.drop_last());
        let earlier = instances_of(matrix.drop_last(), seq![])->Ok_0;
        assert(lookup(Seq::<(Seq<char>, Seq<char>)>::empty(), matrix.last().0) is None);
        lemma_product_size(earlier, matrix.last().0, matrix.last().1);
    }
}

proof fn lemma_product_size(
    instances: Seq<Dimensions>,
    key: Seq<char>,
    values: Seq<Seq<char>>,
)
    ensures
        crate::project::matrix::product(instances, key, values).len() == instances.len()
            * values.len(),
    decreases instances.len(),
{
    if instances.len() > 0 {
        lemma_product_size(instances.drop_last(), key, values);
        assert(instances.len() * values.len() == (instances.len() - 1) * values.len()
            + values.len()) by (nonlinear_arith)
            requires
                instances.len() > 0,
        ;
    } else {
        assert(instances.len() * values.len() == 0) by (nonlinear_arith)
            requires
                instances.len() == 0,
        ;
    }
}

/// Whether dimensions give a dimension of a matrix a value that it lists.
pub open spec fn has_listed_value(
    dimensions: Dimensions,
    listed: (Seq<char>, Seq<Seq<char>>),
) -> bool {
    exists|value: Seq<char>| #[trigger]
        listed.1.contains(value) && dimensions.contains((listed.0, value))
}

/// Dimensions make an instance of a matrix exactly where they are as many as
/// those of the matrix and give each of them a value that it lists.
pub proof fn law_an_instance_gives_every_dimension_a_listed_value(
    matrix: Seq<(Seq<char>, Seq<Seq<char>>)>,
    dimensions: Dimensions,
)
    requires
        sorted(dimensions),
    ensures
        instance_problem(matrix, dimensions) is None <==> matrix.len() == dimensions.len() && forall|
            i: int,
        |
            0 <= i < matrix.len() ==> has_listed_value(dimensions, #[trigger] matrix[i]),
{
    lemma_first_mismatch(matrix, dimensions);
}

proof fn lemma_first_mismatch(
    matrix: Seq<(Seq<char>, Seq<Seq<char>>)>,
    dimensions: Dimensions,
)
    requires
        sorted(dimensions),
    ensures
        first_mismatch(matrix, dimensions) is None <==> forall|i: int|
            0 <= i < matrix.len() ==> has_listed_value(dimensions, #[trigger] matrix[i]),
    decreases matrix.len(),
{
    if matrix.len() > 0 {
        let rest = matrix.drop_first();
        lemma_first_mismatch(rest, dimensions);
        let here = has_listed_value(dimensions, matrix[0]);
        let found = lookup(dimensions, matrix[0].0);
        assert(here == (found is Some && matrix[0].1.contains(found->0))) by {
            if let Some(value) = found {
                law_a_key_gives_the_value_held_with_it(dimensions, matrix[0].0, value);
            }
            if here {
                let value = choose|value: Seq<char>| #[trigger]
                    matrix[0].1.contains(value) && dimensions.contains((matrix[0].0, value));
                law_a_key_gives_the_value_held_with_it(dimensions, matrix[0].0, value);
            }
        }
        assert forall|i: int| 0 < i < matrix.len() implies #[trigger] matrix[i] == rest[i - 1] by {}
        if first_mismatch(matrix, dimensions) is None {
            assert forall|i: int| 0 <= i < matrix.len() implies has_listed_value(dimensions, #[trigger] matrix[i]) by {
                if i > 0 {
                    assert(rest[i - 1] == matrix[i]);
                }
            }
        }
        if forall|i: int|
            0 <= i < matrix.len() ==> has_listed_value(dimensions, #[trigger] matrix[i]) {
            assert(matrix[0] == matrix[0]);
            assert forall|i: int| 0 <= i < rest.len() implies has_listed_value(dimensions, #[trigger] rest[i]) by {
                assert(rest[i] == matrix[i + 1]);
            }
        }
    }
}

/// What a task depends on is what its references stand for, all of them: a task
/// is among its dependencies exactly where one of the references names it.
pub proof fn law_dependencies_are_what_the_references_name(
    tasks: Tasks,
    current: Seq<char>,
    references: Seq<Seq<char>>,
    id: Seq<char>,
)
    ensures
        resolved_refs(tasks, current, references) is Ok <==> forall|k: int|
            0 <= k < references.len() ==> resolved_ref(tasks, current, #[trigger] references[k]) is Ok,
        resolved_refs(tasks, current, references) matches Ok(ids) ==> (ids.contains(id) <==> exists|
            k: int,
        |
            0 <= k < references.len() && (resolved_ref(
                tasks,
                current,
                #[trigger] references[k],
            )->Ok_0).contains(id)),
    decreases references.len(),
{
    if references.len() > 0 {
        let front = references.drop_last();
        let last = references.last();
        law_dependencies_are_what_the_references_name(tasks, current, front, id);
        assert(forall|k: int| 0 <= k < front.len() ==> front[k] == #[trigger] references[k]);
        assert(references[references.len() - 1] == last);
        if resolved_refs(tasks, current, front) is Ok && resolved_ref(tasks, current, last) is Ok {
            assert forall|k: int| 0 <= k < references.len() implies resolved_ref(
                tasks,
                current,
                #[trigger] references[k],
            ) is Ok by {
                if k < front.len() {
                    assert(front[k] == references[k]);
                }
            }
            let earlier = resolved_refs(tasks, current, front)->Ok_0;
            let more = resolved_ref(tasks, current, last)->Ok_0;
            let ids = earlier + more;
            if ids.contains(id) {
                let i = choose|i: int| 0 <= i < ids.len() && ids[i] == id;
                if i < earlier.len() {
                    assert(earlier[i] == id);
                    let k = choose|k: int|
                        0 <= k < front.len() && (resolved_ref(
                            tasks,
                            current,
                            #[trigger] front[k],
                        )->Ok_0).contains(id);
                    assert(references[k] == front[k]);
                } else {
                    assert(more[i - earlier.len()] == id);
                }
            }
            if exists|k: int|
                0 <= k < references.len() && (resolved_ref(
                    tasks,
                    current,
                    #[trigger] references[k],
                )->Ok_0).contains(id) {
                let k = choose|k: int|
                    0 <= k < references.len() && (resolved_ref(
                        tasks,
                        current,
                        #[trigger] references[k],
                    )->Ok_0).contains(id);
                if k < front.len() {
                    assert(front[k] == references[k]);
                    assert(earlier.contains(id));
                    let i = choose|i: int| 0 <= i < earlier.len() && earlier[i] == id;
                    assert(ids[i] == id);
                } else {
                    assert(more.contains(id));
                    let i = choose|i: int| 0 <= i < more.len() && more[i] == id;
                    assert(ids[earlier.len() + i] == id);
                }
            }
        } else {
            if resolved_refs(tasks, current, front) is Err {
                let k = choose|k: int|
                    0 <= k < front.len() && resolved_ref(tasks, current, #[trigger] front[k]) is Err;
                assert(references[k] == front[k]);
            }
        }
    }
}

/// A reference to a task without a matrix stands for that task, and one that
/// names an instance for that instance. A reference to a task with a matrix
/// stands for the instances that agree with those dimensions of the referring
/// task that the matrix has too.
pub proof fn law_a_reference_stands_for_its_instances(
    tasks: Tasks,
    current: Seq<char>,
    reference: Seq<char>,
    task: TaskConfig,
    dimensions: Dimensions,
    id: Seq<char>,
)
    requires
        task_of(tasks, reference) == Ok::<TaskConfig, ProjectFault>(task),
        reference.len() > 0,
        has_plain_characters(reference),
        dimensions_of(current) == Some(dimensions),
    ensures
        !reference.contains('[') && task.matrix@.len() == 0 ==> resolved_ref(
            tasks,
            current,
            reference,
        ) == Ok::<Seq<Seq<char>>, ProjectFault>(seq![reference]),
        !reference.contains('[') && instances_of(list_entries(task.matrix@), dimensions) is Ok ==> (
        resolved_ref(tasks, current, reference) matches Ok(ids) && (ids.contains(id) <==> exists|
            i: int,
        |
            0 <= i < (instances_of(list_entries(task.matrix@), dimensions)->Ok_0).len() && id
                == instance_name(
                reference,
                #[trigger] (instances_of(list_entries(task.matrix@), dimensions)->Ok_0)[i],
            ))),
        dimensions_of(reference) matches Some(explicit) && explicit.len() > 0 && instance_problem(
            list_entries(task.matrix@),
            explicit,
        ) is None ==> resolved_ref(tasks, current, reference) == Ok::<Seq<Seq<char>>, ProjectFault>(
            seq![reference],
        ),
{
    lemma_plain(reference);
    crate::text::lemma_position_bounds(reference, '[');
    let matrix = list_entries(task.matrix@);
    assert(matrix.len() == task.matrix@.len());
    if !reference.contains('[') {
        assert(base_name(reference) == Some(reference));
        if let Ok(instances) = instances_of(matrix, dimensions) {
            let names = instance_names(reference, instances);
            if matrix.len() == 0 {
                assert(instances =~= seq![Seq::<(Seq<char>, Seq<char>)>::empty()]);
                assert(names =~= seq![reference]);
            }
            assert(names.len() == instances.len());
            if names.contains(id) {
                let i = choose|i: int| 0 <= i < names.len() && names[i] == id;
                assert(id == instance_name(reference, instances[i]));
            }
            if exists|i: int|
                0 <= i < instances.len() && id == instance_name(reference, #[trigger] instances[i]) {
                let i = choose|i: int|
                    0 <= i < instances.len() && id == instance_name(
                        reference,
                        #[trigger] instances[i],
                    );
                assert(names[i] == id);
            }
        }
    }
}

/// Requested tasks are planned as they are named; without any, the tasks of the
/// pipeline are, of the named one or else of the default one, which has to have
/// some.
pub proof fn law_the_named_pipeline_is_planned(
    project: ProjectView,
    pipeline: Option<Seq<char>>,
    requested: Seq<Seq<char>>,
    name: Seq<char>,
    at: int,
)
    requires
        sorted(project.pipelines),
        name == match pipeline {
            Some(named) => named,
            None => project.default_pipeline,
        },
    ensures
        requested.len() > 0 ==> requested_names(project, pipeline, requested) == Ok::<
            Seq<Seq<char>>,
            ProjectFault,
        >(requested),
        requested.len() == 0 && 0 <= at < project.pipelines.len() && project.pipelines[at].0 == name
            && project.pipelines[at].1.tasks@.len() > 0 ==> requested_names(
            project,
            pipeline,
            requested,
        ) == Ok::<Seq<Seq<char>>, ProjectFault>(texts(project.pipelines[at].1.tasks@)),
        requested.len() == 0 && !keys(project.pipelines).contains(name) ==> (requested_names(
            project,
            pipeline,
            requested,
        ) matches Err(ProjectFault::UnknownPipeline { name: unknown, .. }) && unknown == name),
{
    if 0 <= at < project.pipelines.len() && project.pipelines[at].0 == name {
        crate::map::lemma_lookup_index(project.pipelines, at);
    }
    if !keys(project.pipelines).contains(name) {
        crate::map::lemma_lookup_some(project.pipelines, name);
        if lookup(project.pipelines, name) is Some {
            let i = choose|i: int|
                0 <= i < project.pipelines.len() && #[trigger] project.pipelines[i].0 == name;
            assert(keys(project.pipelines)[i] == name);
        }
    }
}

/// The first of some problems is the one that is reported, and none is exactly
/// where there is none.
pub proof fn law_the_first_problem_is_reported<F>(count: nat, problem: spec_fn(int) -> Option<F>)
    ensures
        match first_problem(count, problem) {
            Some(fault) => exists|k: int|
                0 <= k < count && #[trigger] problem(k) == Some(fault) && forall|j: int|
                    0 <= j < k ==> #[trigger] problem(j) is None,
            None => forall|k: int| 0 <= k < count ==> #[trigger] problem(k) is None,
        },
    decreases count,
{
    if count > 0 {
        law_the_first_problem_is_reported((count - 1) as nat, problem);
        if first_problem((count - 1) as nat, problem) is None && problem(count - 1) is Some {
            assert(problem(count - 1) == first_problem(count, problem));
        }
    }
}

/// A manifest that loads has the supported schema, names that can be shown, a
/// default pipeline, in every pipeline something to run under names that can be
/// shown, only tasks that keep the rules, and only pipelines that can be
/// planned.
pub proof fn law_a_loaded_manifest_keeps_every_rule(
    root: Seq<char>,
    config: MonoConfig,
    directories: Seq<(Seq<char>, Resolution)>,
)
    requires
        load_problem(root, config, directories) is None,
    ensures
        config.schema == SUPPORTED_SCHEMA,
        config.project.name@.len() > 0 && has_plain_characters(config.project.name@),
        lookup(config.pipelines@, config.project.default_pipeline@) is Some,
        forall|i: int|
            0 <= i < config.pipelines@.len() ==> (#[trigger] config.pipelines@[i]).0.len() > 0
                && has_plain_characters(config.pipelines@[i].0)
                && config.pipelines@[i].1.tasks@.len() + config.pipelines@[i].1.finally@.len() > 0,
        forall|i: int, k: int|
            0 <= i < config.pipelines@.len() && 0 <= k < config.pipelines@[i].1.tasks@.len() ==> (
            #[trigger] config.pipelines@[i].1.tasks@[k])@.len() > 0 && has_plain_characters(
                config.pipelines@[i].1.tasks@[k]@,
            ),
        forall|i: int|
            0 <= i < config.tasks@.len() ==> keeps_the_rules(
                (#[trigger] config.tasks@[i]).0,
                config.tasks@[i].1,
            ),
        forall|i: int|
            0 <= i < config.pipelines@.len() ==> plan_of(
                crate::project::described(root, config),
                directories,
                Some((#[trigger] config.pipelines@[i]).0),
                seq![],
            ) is Ok,
{
    let path = join_path(root, crate::config::CONFIG_FILE_NAME@);
    let pipelines = config.pipelines@;
    let tasks = config.tasks@;
    lemma_plain(config.project.name@);
    law_the_first_problem_is_reported(pipelines.len(), pipeline_name_problem(path, pipelines));
    law_the_first_problem_is_reported(pipelines.len(), pipeline_problem(path, pipelines));
    law_the_first_problem_is_reported(
        tasks.len(),
        declared_task_problem(path, directories, root, tasks),
    );
    let project = crate::project::described(root, config);
    law_the_first_problem_is_reported(
        pipelines.len(),
        pipeline_plan_problem(project, directories),
    );
    assert forall|i: int| 0 <= i < pipelines.len() implies (#[trigger] pipelines[i]).0.len() > 0
        && has_plain_characters(pipelines[i].0) && pipelines[i].1.tasks@.len()
        + pipelines[i].1.finally@.len() > 0 by {
        assert(pipeline_name_problem(path, pipelines)(i) is None);
        assert(pipeline_problem(path, pipelines)(i) is None);
        lemma_plain(pipelines[i].0);
    }
    assert forall|i: int, k: int|
        0 <= i < pipelines.len() && 0 <= k < pipelines[i].1.tasks@.len() implies (
    #[trigger] pipelines[i].1.tasks@[k])@.len() > 0 && has_plain_characters(
        pipelines[i].1.tasks@[k]@,
    ) by {
        assert(pipeline_problem(path, pipelines)(i) is None);
        let listed = pipelines[i].1;
        let references = texts(listed.tasks@) + texts(listed.finally@);
        let problem = pipeline_reference_problem(path, pipelines[i].0, references);
        law_the_first_problem_is_reported(references.len(), problem);
        assert(problem(k) is None);
        assert(references[k] == listed.tasks@[k]@);
        lemma_plain(references[k]);
    }
    assert forall|i: int| 0 <= i < tasks.len() implies keeps_the_rules(
        (#[trigger] tasks[i]).0,
        tasks[i].1,
    ) by {
        assert(declared_task_problem(path, directories, root, tasks)(i) is None);
        law_an_accepted_task_keeps_every_rule(path, tasks[i].0, tasks[i].1);
    }
    assert forall|i: int| 0 <= i < pipelines.len() implies plan_of(
        project,
        directories,
        Some((#[trigger] pipelines[i]).0),
        seq![],
    ) is Ok by {
        assert(pipeline_plan_problem(project, directories)(i) is None);
    }
}

/// The graph lists each task in order, with what it depends on.
pub proof fn law_edges_are_the_dependencies(tasks: Tasks, order: Seq<Seq<char>>, count: nat)
    requires
        count <= order.len(),
    ensures
        edges_of(tasks, order, count) matches Ok(edges) ==> edges.len() == count && forall|i: int|
            0 <= i < count ==> (#[trigger] edges[i]).0 == order[i] && dependencies(tasks, order[i])
                == Ok::<Seq<Seq<char>>, ProjectFault>(edges[i].1),
        edges_of(tasks, order, count) is Ok <==> forall|i: int|
            0 <= i < count ==> dependencies(tasks, #[trigger] order[i]) is Ok,
    decreases count,
{
    if count > 0 {
        law_edges_are_the_dependencies(tasks, order, (count - 1) as nat);
        if let Ok(edges) = edges_of(tasks, order, count) {
            let earlier = edges_of(tasks, order, (count - 1) as nat)->Ok_0;
            assert forall|i: int| 0 <= i < count implies (#[trigger] edges[i]).0 == order[i]
                && dependencies(tasks, order[i]) == Ok::<Seq<Seq<char>>, ProjectFault>(
                edges[i].1,
            ) by {
                if i < count - 1 {
                    assert(edges[i] == earlier[i]);
                }
            }
            assert(order[count - 1] == order[count - 1]);
        }
    }
}

/// The directories that are resolved for a task are those of all its instances.
pub proof fn law_every_instance_has_its_directory_resolved(
    root: Seq<char>,
    cwd: Seq<char>,
    instances: Seq<Dimensions>,
    path: Seq<char>,
)
    ensures
        instance_directories(root, cwd, instances).contains(path) <==> exists|i: int|
            0 <= i < instances.len() && (interpolated(cwd, #[trigger] instances[i]) matches Ok(
                directory,
            ) && path == join_path(root, directory)),
    decreases instances.len(),
{
    if instances.len() > 0 {
        let front = instances.drop_last();
        law_every_instance_has_its_directory_resolved(root, cwd, front, path);
        let earlier = instance_directories(root, cwd, front);
        let all = instance_directories(root, cwd, instances);
        assert(instances[instances.len() - 1] == instances.last());
        if all.contains(path) {
            let i = choose|i: int| 0 <= i < all.len() && all[i] == path;
            if i < earlier.len() {
                assert(earlier[i] == path);
                let k = choose|k: int|
                    0 <= k < front.len() && (interpolated(cwd, #[trigger] front[k]) matches Ok(
                        directory,
                    ) && path == join_path(root, directory));
                assert(instances[k] == front[k]);
            }
        }
        if exists|i: int|
            0 <= i < instances.len() && (interpolated(cwd, #[trigger] instances[i]) matches Ok(
                directory,
            ) && path == join_path(root, directory)) {
            let i = choose|i: int|
                0 <= i < instances.len() && (interpolated(cwd, #[trigger] instances[i]) matches Ok(
                    directory,
                ) && path == join_path(root, directory));
            if i < front.len() {
                assert(front[i] == instances[i]);
                let k = choose|k: int| 0 <= k < earlier.len() && earlier[k] == path;
                assert(all[k] == path);
            } else {
                assert(all.last() == path);
            }
        }
    }
}

/// A name that is asked for and names an instance stands for that instance. Any
/// other stands for every instance of its task, in their order.
pub proof fn law_a_requested_name_stands_for_its_instances(
    tasks: Tasks,
    name: Seq<char>,
    task: TaskConfig,
    explicit: Dimensions,
)
    requires
        task_of(tasks, name) == Ok::<TaskConfig, ProjectFault>(task),
        dimensions_of(name) == Some(explicit),
    ensures
        explicit.len() > 0 ==> (root_ids(tasks, name) is Ok <==> instance_problem(
            list_entries(task.matrix@),
            explicit,
        ) is None),
        explicit.len() > 0 && root_ids(tasks, name) is Ok ==> root_ids(tasks, name)->Ok_0
            == seq![name],
        explicit.len() == 0 ==> match instances_of(list_entries(task.matrix@), seq![]) {
            Ok(instances) => root_ids(tasks, name) matches Ok(ids) && ids.len() == instances.len()
                && forall|i: int|
                0 <= i < ids.len() ==> #[trigger] ids[i] == instance_name(
                    base_name(name)->0,
                    instances[i],
                ),
            Err(_) => root_ids(tasks, name) is Err,
        },
{
}

proof fn lemma_ids_added(set: IdSet, ids: Seq<Seq<char>>, id: Seq<char>)
    requires
        sorted(set),
    ensures
        sorted(with_ids(set, ids)),
        lookup(with_ids(set, ids), id) is Some <==> lookup(set, id) is Some || ids.contains(id),
    decreases ids.len(),
{
    if ids.len() > 0 {
        let front = ids.drop_last();
        lemma_ids_added(set, front, id);
        law_insert_lookup(with_ids(set, front), ids.last(), true);
        if ids.contains(id) {
            let i = choose|i: int| 0 <= i < ids.len() && ids[i] == id;
            if i < front.len() {
                assert(front[i] == id);
            }
        }
        if front.contains(id) {
            let i = choose|i: int| 0 <= i < front.len() && front[i] == id;
            assert(ids[i] == id);
        }
        assert(ids[ids.len() - 1] == ids.last());
    }
}

/// What is planned for are the instances of all the names that are asked for,
/// each once and in the order of their names; one name that stands for nothing
/// refuses them all.
pub proof fn law_every_requested_name_is_planned_for(
    tasks: Tasks,
    names: Seq<Seq<char>>,
    id: Seq<char>,
)
    ensures
        root_set(tasks, names) is Ok <==> forall|k: int|
            0 <= k < names.len() ==> root_ids(tasks, #[trigger] names[k]) is Ok,
        root_set(tasks, names) matches Ok(set) ==> sorted(set) && (lookup(set, id) is Some
            <==> exists|k: int|
            0 <= k < names.len() && (root_ids(tasks, #[trigger] names[k])->Ok_0).contains(id)),
    decreases names.len(),
{
    if names.len() > 0 {
        let front = names.drop_last();
        let last = names.last();
        law_every_requested_name_is_planned_for(tasks, front, id);
        assert(names[names.len() - 1] == last);
        assert(forall|k: int| 0 <= k < front.len() ==> front[k] == #[trigger] names[k]);
        if root_set(tasks, front) is Err {
            let k = choose|k: int|
                0 <= k < front.len() && root_ids(tasks, #[trigger] front[k]) is Err;
            assert(names[k] == front[k]);
        } else if root_ids(tasks, last) is Ok {
            let set = root_set(tasks, front)->Ok_0;
            let ids = root_ids(tasks, last)->Ok_0;
            lemma_ids_added(set, ids, id);
            assert forall|k: int| 0 <= k < names.len() implies root_ids(
                tasks,
                #[trigger] names[k],
            ) is Ok by {
                if k < front.len() {
                    assert(front[k] == names[k]);
                }
            }
            if exists|k: int|
                0 <= k < names.len() && (root_ids(tasks, #[trigger] names[k])->Ok_0).contains(id) {
                let k = choose|k: int|
                    0 <= k < names.len() && (root_ids(tasks, #[trigger] names[k])->Ok_0).contains(
                        id,
                    );
                if k < front.len() {
                    assert(front[k] == names[k]);
                }
            }
            if lookup(set, id) is Some {
                let k = choose|k: int|
                    0 <= k < front.len() && (root_ids(tasks, #[trigger] front[k])->Ok_0).contains(
                        id,
                    );
                assert(names[k] == front[k]);
            }
        }
    } else {
        assert(root_set(tasks, names) == Ok::<IdSet, ProjectFault>(seq![]));
    }
}

/// A manifest is accepted only where every task makes references that stand for
/// something.
pub proof fn law_accepted_references_stand_for_something(tasks: Tasks, i: int)
    requires
        graph_problem(tasks) is None,
        0 <= i < tasks.len(),
    ensures
        resolved_refs(tasks, tasks[i].0, texts(tasks[i].1.depends_on@)) is Ok,
{
    let problem = graph_reference_problem(tasks);
    law_the_first_problem_is_reported(tasks.len(), problem);
    assert(problem(i) is None);
}

/// The directories that planning asks for are those of every instance of every
/// task that keeps the rules.
pub proof fn law_every_accepted_task_has_its_directories_resolved(
    root: Seq<char>,
    path: Seq<char>,
    tasks: Tasks,
    i: int,
)
    requires
        0 <= i < tasks.len(),
        task_problem(path, tasks[i].0, tasks[i].1) is None,
    ensures
        forall|wanted: Seq<char>| #[trigger]
            instance_directories(
                root,
                declared_cwd(tasks[i].1),
                instances_of(list_entries(tasks[i].1.matrix@), seq![])->Ok_0,
            ).contains(wanted) ==> wanted_directories(root, path, tasks).contains(wanted),
    decreases tasks.len(),
{
    let front = tasks.drop_last();
    let earlier = wanted_directories(root, path, front);
    let all = wanted_directories(root, path, tasks);
    let here = instance_directories(
        root,
        declared_cwd(tasks[i].1),
        instances_of(list_entries(tasks[i].1.matrix@), seq![])->Ok_0,
    );
    if i < front.len() {
        law_every_accepted_task_has_its_directories_resolved(root, path, front, i);
        assert(front[i] == tasks[i]);
    }
    assert forall|wanted: Seq<char>| #[trigger] here.contains(wanted) implies all.contains(
        wanted,
    ) by {
        if i < front.len() {
            let k = choose|k: int| 0 <= k < earlier.len() && earlier[k] == wanted;
            assert(earlier.contains(wanted));
            assert(all[k] == wanted);
        } else {
            let k = choose|k: int| 0 <= k < here.len() && here[k] == wanted;
            assert(all[earlier.len() + k] == wanted);
        }
    }
}

} // verus!
