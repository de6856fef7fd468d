//! The rules that a manifest must keep.

use vstd::prelude::*;
use vstd::string::StringExecFns;

use crate::config::{process_value_problem, validate_process_value, StdinMode, TaskConfig};
use crate::config::SUPPORTED_SCHEMA;
use crate::io::{IoError, IoErrorView};
use crate::map::TextMap;
use crate::path::{absolute, below, components, is_absolute, is_below, join_path, join_paths};
use crate::path::path_components;
use crate::project::error::{ProjectError, ProjectFault};
use crate::project::matrix::{list_entries, text_entries};
use crate::text::{any, decimal, find, has_char, has_control, has_text, holds, is_control, number};
use crate::text::{split, split_text, starts_with, strip_prefix, texts};

verus! {

broadcast use vstd::seq_lib::group_seq_properties;

/// The complaint about a schema that is not supported.
pub open spec fn schema_problem(path: Seq<char>, schema: u32) -> Option<ProjectFault> {
    if schema != SUPPORTED_SCHEMA {
        Some(ProjectFault::UnsupportedSchema { path, found: schema, supported: SUPPORTED_SCHEMA })
    } else {
        None
    }
}

pub fn validate_schema(path: &str, schema: u32) -> (r: Result<(), ProjectError>)
    ensures
        match r {
            Ok(_) => schema_problem(path@, schema) is None,
            Err(e) => schema_problem(path@, schema) == Some(e@),
        },
{
    if schema != SUPPORTED_SCHEMA {
        return Err(
            ProjectError::UnsupportedSchema {
                path: path.to_owned(),
                found: schema,
                supported: SUPPORTED_SCHEMA,
            },
        );
    }
    Ok(())
}

/// Whether a text can name something: not empty, no NUL, no control character.
pub open spec fn is_plain_name(value: Seq<char>) -> bool {
    value.len() > 0 && !value.contains('\0') && !any(value, |c: char| is_control(c))
}

fn plain_name(value: &str) -> (r: bool)
    ensures
        r == is_plain_name(value@),
{
    !value.is_empty() && !has_char(value, '\0') && !has_control(value)
}

/// The complaint about an identifier.
pub open spec fn identifier_problem(
    path: Seq<char>,
    label: Seq<char>,
    value: Seq<char>,
) -> Option<ProjectFault> {
    if is_plain_name(value) {
        None
    } else {
        Some(
            ProjectFault::InvalidManifest {
                path,
                message: label
                    + " must be non-empty and cannot contain NUL or control characters"@,
            },
        )
    }
}

pub fn validate_identifier(path: &str, label: &str, value: &str) -> (r: Result<(), ProjectError>)
    ensures
        match r {
            Ok(_) => identifier_problem(path@, label@, value@) is None,
            Err(e) => identifier_problem(path@, label@, value@) == Some(e@),
        },
{
    if !plain_name(value) {
        let mut message = label.to_owned();
        message.append(" must be non-empty and cannot contain NUL or control characters");
        return Err(ProjectError::InvalidManifest { path: path.to_owned(), message });
    }
    Ok(())
}

/// The complaint about a task reference.
pub open spec fn reference_problem(reference: Seq<char>) -> Option<Seq<char>> {
    if is_plain_name(reference) {
        None
    } else {
        Some("task reference must be non-empty and cannot contain NUL or control characters"@)
    }
}

pub fn validate_task_reference(reference: &str) -> (r: Result<(), String>)
    ensures
        match r {
            Ok(_) => reference_problem(reference@) is None,
            Err(message) => reference_problem(reference@) == Some(message@),
        },
{
    if plain_name(reference) {
        Ok(())
    } else {
        Err(
            "task reference must be non-empty and cannot contain NUL or control characters".to_owned(),
        )
    }
}

/// Whether a path is relative and stays below the directory it starts from.
pub open spec fn is_relative_path(path: Seq<char>) -> bool {
    path.len() > 0 && !components(path).contains("/"@) && !components(path).contains(".."@)
}

pub fn valid_relative_path(path: &str) -> (r: bool)
    ensures
        r == is_relative_path(path@),
{
    let parts = path_components(path);
    !path.is_empty() && !holds(&parts, "/") && !holds(&parts, "..")
}

/// A cache pattern without the mark that makes it exclude.
pub open spec fn pattern_body(pattern: Seq<char>) -> Seq<char> {
    if "!"@.is_prefix_of(pattern) {
        pattern.skip(1)
    } else {
        pattern
    }
}

/// The complaint about a cache pattern.
pub open spec fn pattern_problem(pattern: Seq<char>) -> Option<Seq<char>> {
    let body = pattern_body(pattern);
    if body.len() == 0 || body.contains('\0') || is_absolute(body) {
        Some("cache patterns must be non-empty and relative"@)
    } else if split(body, '/').contains(Seq::<char>::empty()) || split(body, '/').contains(".."@) {
        Some("cache patterns cannot contain empty or '..' path segments"@)
    } else {
        None
    }
}

pub fn validate_cache_pattern(pattern: &str) -> (r: Result<(), String>)
    ensures
        match r {
            Ok(_) => pattern_problem(pattern@) is None,
            Err(message) => pattern_problem(pattern@) == Some(message@),
        },
{
    proof {
        reveal_strlit("!");
        reveal_strlit("");
    }
    let body: String = match strip_prefix(pattern, "!") {
        Some(rest) => rest,
        None => pattern.to_owned(),
    };
    if body.as_str().is_empty() || has_char(body.as_str(), '\0') || absolute(body.as_str()) {
        return Err("cache patterns must be non-empty and relative".to_owned());
    }
    let segments = split_text(body.as_str(), '/');
    assert(""@ =~= Seq::<char>::empty());
    if holds(&segments, "") || holds(&segments, "..") {
        return Err("cache patterns cannot contain empty or '..' path segments".to_owned());
    }
    Ok(())
}

/// Whether a text holds one of the characters that instance names are made with.
pub open spec fn has_instance_mark(value: Seq<char>) -> bool {
    value.contains('[') || value.contains(']') || value.contains('=') || value.contains(',')
}

pub fn instance_mark(value: &str) -> (r: bool)
    ensures
        r == has_instance_mark(value@),
{
    has_char(value, '[') || has_char(value, ']') || has_char(value, '=') || has_char(value, ',')
}

/// The first command argument, from `from` on, that cannot be passed on.
pub open spec fn argument_problem(command: Seq<Seq<char>>, from: int) -> Option<Seq<char>>
    decreases command.len() - from,
{
    if from < 0 || from >= command.len() {
        None
    } else {
        match process_value_problem(
            command[from],
            "command argument "@ + decimal(from as nat),
        ) {
            Some(message) => Some(message),
            None => argument_problem(command, from + 1),
        }
    }
}

/// The first environment entry that cannot be passed on.
pub open spec fn environment_problem(env: Seq<(Seq<char>, Seq<char>)>) -> Option<Seq<char>>
    decreases env.len(),
{
    if env.len() == 0 {
        None
    } else {
        match process_value_problem(env[0].0, "environment key"@) {
            Some(message) => Some(message),
            None => match process_value_problem(env[0].1, "environment value"@) {
                Some(message) => Some(message),
                None => environment_problem(env.drop_first()),
            },
        }
    }
}

/// The complaint about the first bad pattern.
pub open spec fn patterns_problem(patterns: Seq<Seq<char>>) -> Option<Seq<char>>
    decreases patterns.len(),
{
    if patterns.len() == 0 {
        None
    } else {
        match pattern_problem(patterns[0]) {
            Some(message) => Some(message),
            None => patterns_problem(patterns.drop_first()),
        }
    }
}

/// Whether some pattern selects rather than excludes.
pub open spec fn has_positive(patterns: Seq<Seq<char>>) -> bool {
    exists|i: int| 0 <= i < patterns.len() && !"!"@.is_prefix_of(#[trigger] patterns[i])
}

/// Whether a name can be that of a cached environment variable.
pub open spec fn is_variable_name(name: Seq<char>) -> bool {
    name.len() > 0 && !name.contains('=') && !name.contains('\0')
}

/// The complaint about one value of a dimension.
pub open spec fn value_problem(value: Seq<char>) -> Option<Seq<char>> {
    match process_value_problem(value, "matrix value"@) {
        Some(message) => Some(message),
        None => if has_instance_mark(value) {
            Some("matrix values cannot contain '[', ']', '=', or ','"@)
        } else if any(value, |c: char| is_control(c)) {
            Some("matrix values cannot contain control characters"@)
        } else {
            None
        },
    }
}

/// The complaint about the values of a dimension, from `from` on.
pub open spec fn values_problem(
    dimension: Seq<char>,
    values: Seq<Seq<char>>,
    from: int,
) -> Option<Seq<char>>
    decreases values.len() - from,
{
    if from < 0 || from >= values.len() {
        None
    } else {
        match value_problem(values[from]) {
            Some(message) => Some(message),
            None => if values.take(from).contains(values[from]) {
                Some(
                    "matrix dimension '"@ + dimension + "' contains duplicate value '"@
                        + values[from] + "'"@,
                )
            } else {
                values_problem(dimension, values, from + 1)
            },
        }
    }
}

/// The complaint about the dimensions of a matrix.
pub open spec fn matrix_problem(
    path: Seq<char>,
    task: Seq<char>,
    matrix: Seq<(Seq<char>, Seq<Seq<char>>)>,
) -> Option<ProjectFault>
    decreases matrix.len(),
{
    if matrix.len() == 0 {
        None
    } else {
        let (dimension, values) = matrix[0];
        match identifier_problem(path, "matrix dimension"@, dimension) {
            Some(fault) => Some(fault),
            None => if values.len() == 0 {
                Some(
                    ProjectFault::InvalidTask {
                        task,
                        message: "matrix dimension '"@ + dimension
                            + "' must have at least one value"@,
                    },
                )
            } else {
                match values_problem(dimension, values, 0) {
                    Some(message) => Some(ProjectFault::InvalidTask { task, message }),
                    None => matrix_problem(path, task, matrix.drop_first()),
                }
            },
        }
    }
}

/// The number of instances of a matrix.
pub open spec fn matrix_size(matrix: Seq<(Seq<char>, Seq<Seq<char>>)>) -> nat
    decreases matrix.len(),
{
    if matrix.len() == 0 {
        1
    } else {
        matrix_size(matrix.drop_last()) * matrix.last().1.len()
    }
}

/// Whether a group name can be used.
pub open spec fn is_group_name(group: Seq<char>) -> bool {
    group.len() > 0 && !group.contains(':') && !group.contains('\0') && !any(
        group,
        |c: char| is_control(c),
    )
}

/// The complaint about one task of a manifest: the first rule, in this order,
/// that the task breaks.
pub open spec fn task_problem(path: Seq<char>, name: Seq<char>, task: TaskConfig) -> Option<
    ProjectFault,
> {
    let invalid = |message: Seq<char>| Some(ProjectFault::InvalidTask { task: name, message });
    let command = texts(task.command@);
    let inputs = texts(task.inputs@);
    let outputs = texts(task.outputs@);
    let matrix = list_entries(task.matrix@);
    if let Some(fault) = identifier_problem(path, "task name"@, name) {
        Some(fault)
    } else if has_instance_mark(name) {
        Some(ProjectFault::InvalidTaskName { task: name })
    } else if command.len() == 0 || command[0].len() == 0 {
        invalid("command must contain an executable"@)
    } else if let Some(message) = argument_problem(command, 0) {
        invalid(message)
    } else if let Some(message) = environment_problem(text_entries(task.env@)) {
        invalid(message)
    } else if task.cache && !has_positive(inputs) {
        invalid("cacheable tasks must declare at least one positive input pattern"@)
    } else if task.cache && task.stdin == StdinMode::Inherit {
        invalid("cacheable tasks cannot inherit standard input"@)
    } else if outputs.len() > 0 && !has_positive(outputs) {
        invalid("outputs must declare at least one positive pattern"@)
    } else if let Some(message) = patterns_problem(inputs) {
        invalid(message)
    } else if let Some(message) = patterns_problem(outputs) {
        invalid(message)
    } else if exists|i: int|
        0 <= i < task.cache_env@.len() && !is_variable_name(#[trigger] task.cache_env@[i]@) {
        invalid("cache_env names must be non-empty and cannot contain '=' or NUL"@)
    } else if task.timeout_seconds == 0 {
        invalid("timeout_seconds must be greater than zero"@)
    } else if task.max_output_bytes == 0 || task.max_output_bytes > usize::MAX {
        invalid("max_output_bytes must be positive and fit in platform usize"@)
    } else if task.retries > 0 && task.retry_backoff_seconds > 86_400 {
        invalid("retry_backoff_seconds must not exceed 86400"@)
    } else if task.resource_group is Some && !is_group_name(task.resource_group->0@) {
        invalid(
            "resource_group must be non-empty and cannot contain ':', NUL, or control characters"@,
        )
    } else if task.cwd is Some && !is_relative_path(task.cwd->0@) {
        invalid("cwd must be an existing relative directory without '..'"@)
    } else if let Some(fault) = matrix_problem(path, name, matrix) {
        Some(fault)
    } else if matrix_size(matrix) > usize::MAX {
        invalid("matrix has too many instances"@)
    } else if matrix_size(matrix) > 1024 {
        invalid("matrix cannot expand to more than 1024 instances"@)
    } else {
        None
    }
}

fn invalid_task(task: &str, message: &str) -> (r: ProjectError)
    ensures
        r@ == (ProjectFault::InvalidTask { task: task@, message: message@ }),
{
    ProjectError::InvalidTask { task: task.to_owned(), message: message.to_owned() }
}

#[verifier::loop_isolation(false)]
pub(crate) fn check_arguments(command: &Vec<String>) -> (r: Result<(), String>)
    ensures
        match r {
            Ok(_) => argument_problem(texts(command@), 0) is None,
            Err(message) => argument_problem(texts(command@), 0) == Some(message@),
        },
{
    let mut i: usize = 0;
    while i < command.len()
        invariant
            i <= command@.len(),
            argument_problem(texts(command@), 0) == argument_problem(texts(command@), i as int),
        decreases command.len() - i,
    {
        let mut field = "command argument ".to_owned();
        field.append(number(i as u128).as_str());
        assert(texts(command@)[i as int] == command@[i as int]@);
        if let Err(message) = validate_process_value(command[i].as_str(), field.as_str()) {
            return Err(message);
        }
        i += 1;
    }
    Ok(())
}

#[verifier::loop_isolation(false)]
pub(crate) fn check_environment(env: &TextMap<String>) -> (r: Result<(), String>)
    ensures
        match r {
            Ok(_) => environment_problem(text_entries(env@)) is None,
            Err(message) => environment_problem(text_entries(env@)) == Some(message@),
        },
{
    let ghost all = text_entries(env@);
    let mut i: usize = 0;
    assert(all.skip(0) =~= all);
    while i < env.len()
        invariant
            i <= all.len(),
            environment_problem(all) == environment_problem(all.skip(i as int)),
        decreases all.len() - i,
    {
        let ghost rest = all.skip(i as int);
        assert(rest[0] == (env@[i as int].0, env@[i as int].1@));
        if let Err(message) = validate_process_value(env.key_at(i), "environment key") {
            return Err(message);
        }
        if let Err(message) = validate_process_value(env.value_at(i).as_str(), "environment value") {
            return Err(message);
        }
        assert(rest.drop_first() =~= all.skip(i as int + 1));
        i += 1;
    }
    Ok(())
}

#[verifier::loop_isolation(false)]
pub(crate) fn check_patterns(patterns: &Vec<String>) -> (r: Result<(), String>)
    ensures
        match r {
            Ok(_) => patterns_problem(texts(patterns@)) is None,
            Err(message) => patterns_problem(texts(patterns@)) == Some(message@),
        },
{
    let ghost all = texts(patterns@);
    let mut i: usize = 0;
    assert(all.skip(0) =~= all);
    while i < patterns.len()
        invariant
            i <= all.len(),
            patterns_problem(all) == patterns_problem(all.skip(i as int)),
        decreases all.len() - i,
    {
        let ghost rest = all.skip(i as int);
        assert(rest[0] == patterns@[i as int]@);
        if let Err(message) = validate_cache_pattern(patterns[i].as_str()) {
            return Err(message);
        }
        assert(rest.drop_first() =~= all.skip(i as int + 1));
        i += 1;
    }
    Ok(())
}

pub(crate) fn any_positive(patterns: &Vec<String>) -> (r: bool)
    ensures
        r == has_positive(texts(patterns@)),
{
    let mut i: usize = 0;
    while i < patterns.len()
        invariant
            i <= patterns@.len(),
            forall|j: int| 0 <= j < i ==> "!"@.is_prefix_of(#[trigger] texts(patterns@)[j]),
        decreases patterns.len() - i,
    {
        if !starts_with(patterns[i].as_str(), "!") {
            assert(!"!"@.is_prefix_of(texts(patterns@)[i as int]));
            return true;
        }
        i += 1;
    }
    false
}

fn check_variables(names: &Vec<String>) -> (r: bool)
    ensures
        r == !(exists|i: int| 0 <= i < names@.len() && !is_variable_name(#[trigger] names@[i]@)),
{
    let mut i: usize = 0;
    while i < names.len()
        invariant
            i <= names@.len(),
            forall|j: int| 0 <= j < i ==> is_variable_name(#[trigger] names@[j]@),
        decreases names.len() - i,
    {
        let name = names[i].as_str();
        if name.is_empty() || has_char(name, '=') || has_char(name, '\0') {
            assert(!is_variable_name(names@[i as int]@));
            return false;
        }
        i += 1;
    }
    true
}

#[verifier::loop_isolation(false)]
fn check_values(dimension: &str, values: &Vec<String>) -> (r: Result<(), String>)
    ensures
        match r {
            Ok(_) => values_problem(dimension@, texts(values@), 0) is None,
            Err(message) => values_problem(dimension@, texts(values@), 0) == Some(message@),
        },
{
    let ghost all = texts(values@);
    let mut seen: Vec<String> = Vec::new();
    let mut i: usize = 0;
    assert(texts(seen@) =~= all.take(0));
    while i < values.len()
        invariant
            i <= all.len(),
            texts(seen@) == all.take(i as int),
            values_problem(dimension@, all, 0) == values_problem(dimension@, all, i as int),
        decreases all.len() - i,
    {
        let value = values[i].as_str();
        assert(all[i as int] == value@);
        if let Err(message) = validate_process_value(value, "matrix value") {
            return Err(message);
        }
        if instance_mark(value) {
            return Err("matrix values cannot contain '[', ']', '=', or ','".to_owned());
        }
        if has_control(value) {
            return Err("matrix values cannot contain control characters".to_owned());
        }
        if holds(&seen, value) {
            let mut message = "matrix dimension '".to_owned();
            message.append(dimension);
            message.append("' contains duplicate value '");
            message.append(value);
            message.append("'");
            return Err(message);
        }
        let ghost before = texts(seen@);
        seen.push(values[i].clone());
        assert(texts(seen@) =~= before.push(value@));
        i += 1;
        assert(texts(seen@) =~= all.take(i as int));
    }
    Ok(())
}

#[verifier::loop_isolation(false)]
fn check_matrix(path: &str, task: &str, matrix: &TextMap<Vec<String>>) -> (r: Result<
    (),
    ProjectError,
>)
    ensures
        match r {
            Ok(_) => matrix_problem(path@, task@, list_entries(matrix@)) is None,
            Err(e) => matrix_problem(path@, task@, list_entries(matrix@)) == Some(e@),
        },
{
    let ghost all = list_entries(matrix@);
    let mut i: usize = 0;
    assert(all.skip(0) =~= all);
    while i < matrix.len()
        invariant
            i <= all.len(),
            matrix_problem(path@, task@, all) == matrix_problem(path@, task@, all.skip(i as int)),
        decreases all.len() - i,
    {
        let ghost rest = all.skip(i as int);
        let dimension = matrix.key_at(i);
        let values = matrix.value_at(i);
        assert(rest[0] == (dimension@, texts(values@)));
        if let Err(e) = validate_identifier(path, "matrix dimension", dimension) {
            return Err(e);
        }
        if values.len() == 0 {
            let mut message = "matrix dimension '".to_owned();
            message.append(dimension);
            message.append("' must have at least one value");
            return Err(ProjectError::InvalidTask { task: task.to_owned(), message });
        }
        if let Err(message) = check_values(dimension, values) {
            return Err(ProjectError::InvalidTask { task: task.to_owned(), message });
        }
        assert(rest.drop_first() =~= all.skip(i as int + 1));
        i += 1;
    }
    Ok(())
}

proof fn lemma_checked_matrix_has_values(
    path: Seq<char>,
    task: Seq<char>,
    matrix: Seq<(Seq<char>, Seq<Seq<char>>)>,
)
    requires
        matrix_problem(path, task, matrix) is None,
    ensures
        forall|i: int| 0 <= i < matrix.len() ==> (#[trigger] matrix[i]).1.len() > 0,
    decreases matrix.len(),
{
    if matrix.len() > 0 {
        lemma_checked_matrix_has_values(path, task, matrix.drop_first());
        assert forall|i: int| 0 <= i < matrix.len() implies (#[trigger] matrix[i]).1.len() > 0 by {
            if i > 0 {
                assert(matrix[i] == matrix.drop_first()[i - 1]);
            }
        }
    }
}

proof fn lemma_matrix_size_grows(matrix: Seq<(Seq<char>, Seq<Seq<char>>)>, k: int)
    requires
        0 <= k <= matrix.len(),
        forall|i: int| 0 <= i < matrix.len() ==> (#[trigger] matrix[i]).1.len() > 0,
    ensures
        1 <= matrix_size(matrix.take(k)) <= matrix_size(matrix),
    decreases matrix.len(),
{
    if k == matrix.len() {
        assert(matrix.take(k) =~= matrix);
        if k > 0 {
            lemma_matrix_size_grows(matrix.drop_last(), k - 1);
            assert(matrix.drop_last().take(k - 1) =~= matrix.drop_last());
            let a = matrix_size(matrix.drop_last());
            let b = matrix.last().1.len();
            assert(a * b >= 1) by (nonlinear_arith)
                requires
                    a >= 1,
                    b >= 1,
            ;
        }
    } else {
        lemma_matrix_size_grows(matrix.drop_last(), k);
        assert(matrix.drop_last().take(k) =~= matrix.take(k));
        let a = matrix_size(matrix.drop_last());
        let b = matrix.last().1.len();
        assert(a * b >= a) by (nonlinear_arith)
            requires
                a >= 1,
                b >= 1,
        ;
    }
}

/// The number of instances, where it fits.
#[verifier::loop_isolation(false)]
fn count_instances(matrix: &TextMap<Vec<String>>) -> (r: Option<usize>)
    requires
        forall|i: int|
            0 <= i < matrix@.len() ==> (#[trigger] list_entries(matrix@)[i]).1.len() > 0,
    ensures
        match r {
            Some(size) => size == matrix_size(list_entries(matrix@)),
            None => matrix_size(list_entries(matrix@)) > usize::MAX,
        },
{
    let ghost all = list_entries(matrix@);
    let mut size: usize = 1;
    let mut i: usize = 0;
    while i < matrix.len()
        invariant
            i <= all.len(),
            size == matrix_size(all.take(i as int)),
        decreases all.len() - i,
    {
        assert(all.take(i as int + 1).drop_last() =~= all.take(i as int));
        assert(all.take(i as int + 1).last() == all[i as int]);
        assert(all[i as int].1.len() == matrix@[i as int].1@.len());
        proof {
            lemma_matrix_size_grows(all, i as int + 1);
        }
        match size.checked_mul(matrix.value_at(i).len()) {
            None => {
                return None;
            },
            Some(next) => {
                size = next;
            },
        }
        i += 1;
    }
    assert(all.take(i as int) =~= all);
    Some(size)
}

/// Check one task of a manifest.
pub fn validate_task_config(manifest_path: &str, task_name: &str, task: &TaskConfig) -> (r: Result<
    (),
    ProjectError,
>)
    ensures
        match r {
            Ok(_) => task_problem(manifest_path@, task_name@, *task) is None,
            Err(e) => task_problem(manifest_path@, task_name@, *task) == Some(e@),
        },
{
    if let Err(e) = validate_identifier(manifest_path, "task name", task_name) {
        return Err(e);
    }
    if instance_mark(task_name) {
        return Err(ProjectError::InvalidTaskName { task: task_name.to_owned() });
    }
    assert(task.command@.len() > 0 ==> texts(task.command@)[0] == task.command@[0]@);
    if task.command.len() == 0 || task.command[0].as_str().is_empty() {
        return Err(invalid_task(task_name, "command must contain an executable"));
    }
    if let Err(message) = check_arguments(&task.command) {
        return Err(ProjectError::InvalidTask { task: task_name.to_owned(), message });
    }
    if let Err(message) = check_environment(&task.env) {
        return Err(ProjectError::InvalidTask { task: task_name.to_owned(), message });
    }
    if task.cache && !any_positive(&task.inputs) {
        return Err(
            invalid_task(
                task_name,
                "cacheable tasks must declare at least one positive input pattern",
            ),
        );
    }
    if task.cache && task.stdin == StdinMode::Inherit {
        return Err(invalid_task(task_name, "cacheable tasks cannot inherit standard input"));
    }
    if task.outputs.len() > 0 && !any_positive(&task.outputs) {
        return Err(invalid_task(task_name, "outputs must declare at least one positive pattern"));
    }
    if let Err(message) = check_patterns(&task.inputs) {
        return Err(ProjectError::InvalidTask { task: task_name.to_owned(), message });
    }
    if let Err(message) = check_patterns(&task.outputs) {
        return Err(ProjectError::InvalidTask { task: task_name.to_owned(), message });
    }
    if !check_variables(&task.cache_env) {
        return Err(
            invalid_task(
                task_name,
                "cache_env names must be non-empty and cannot contain '=' or NUL",
            ),
        );
    }
    if task.timeout_seconds == 0 {
        return Err(invalid_task(task_name, "timeout_seconds must be greater than zero"));
    }
    if task.max_output_bytes == 0 || task.max_output_bytes as u128 > usize::MAX as u128 {
        return Err(
            invalid_task(task_name, "max_output_bytes must be positive and fit in platform usize"),
        );
    }
    if task.retries > 0 && task.retry_backoff_seconds > 86_400 {
        return Err(invalid_task(task_name, "retry_backoff_seconds must not exceed 86400"));
    }
    if let Some(group) = &task.resource_group {
        let name = group.as_str();
        if name.is_empty() || has_char(name, ':') || has_char(name, '\0') || has_control(name) {
            return Err(
                invalid_task(
                    task_name,
                    "resource_group must be non-empty and cannot contain ':', NUL, or control characters",
                ),
            );
        }
    }
    if let Some(cwd) = &task.cwd {
        if !valid_relative_path(cwd.as_str()) {
            return Err(
                invalid_task(task_name, "cwd must be an existing relative directory without '..'"),
            );
        }
    }
    if let Err(e) = check_matrix(manifest_path, task_name, &task.matrix) {
        return Err(e);
    }
    proof {
        lemma_checked_matrix_has_values(manifest_path@, task_name@, list_entries(task.matrix@));
    }
    match count_instances(&task.matrix) {
        None => Err(invalid_task(task_name, "matrix has too many instances")),
        Some(size) => {
            if size > 1024 {
                Err(invalid_task(task_name, "matrix cannot expand to more than 1024 instances"))
            } else {
                Ok(())
            }
        },
    }
}

/// What the operating system says about a directory that a task names.
#[derive(Debug, Clone, PartialEq, Eq)]
pub enum Resolution {
    /// The path names a directory, whose canonical path is given.
    Directory(String),
    /// The path names something that is no directory.
    Other(String),
    /// The path could not be resolved.
    Failed(IoError),
}

/// The directories that have been looked up, by the path that was asked for.
/// A path that is not listed does not exist.
#[derive(Debug, Clone, PartialEq, Eq)]
pub struct Directories {
    pub resolved: TextMap<Resolution>,
}

/// The failure for a path that does not exist.
pub open spec fn not_found() -> IoErrorView {
    IoErrorView {
        kind: crate::io::IoErrorKind::NotFound,
        message: "No such file or directory (os error 2)"@,
    }
}

/// The canonical path of a task's working directory, which must be a directory
/// below the project root.
pub open spec fn resolved_directory(
    directories: Seq<(Seq<char>, Resolution)>,
    root: Seq<char>,
    task: Seq<char>,
    cwd: Seq<char>,
) -> Result<Seq<char>, ProjectFault> {
    let path = join_path(root, cwd);
    let outside = ProjectFault::InvalidTask {
        task,
        message: "cwd must resolve to a directory inside the project root"@,
    };
    match crate::map::lookup(directories, path) {
        None => Err(ProjectFault::TaskDirectory { task, path, source: not_found() }),
        Some(Resolution::Failed(error)) => Err(
            ProjectFault::TaskDirectory { task, path, source: error@ },
        ),
        Some(Resolution::Other(_)) => Err(outside),
        Some(Resolution::Directory(canonical)) => if is_below(canonical@, root) {
            Ok(canonical@)
        } else {
            Err(outside)
        },
    }
}

impl Directories {
    /// The canonical path of a task's working directory.
    pub fn resolve(&self, root: &str, task: &str, cwd: &str) -> (r: Result<String, ProjectError>)
        ensures
            match r {
                Ok(path) => resolved_directory(self.resolved@, root@, task@, cwd@) == Ok::<
                    Seq<char>,
                    ProjectFault,
                >(path@),
                Err(e) => resolved_directory(self.resolved@, root@, task@, cwd@) == Err::<
                    Seq<char>,
                    ProjectFault,
                >(e@),
            },
    {
        let path = join_paths(root, cwd);
        match self.resolved.get(path.as_str()) {
            None => {
                let source = IoError::new(
                    crate::io::IoErrorKind::NotFound,
                    "No such file or directory (os error 2)",
                );
                Err(ProjectError::TaskDirectory { task: task.to_owned(), path, source })
            },
            Some(Resolution::Failed(error)) => {
                Err(
                    ProjectError::TaskDirectory {
                        task: task.to_owned(),
                        path,
                        source: error.copy(),
                    },
                )
            },
            Some(Resolution::Other(_)) => Err(
                invalid_task(task, "cwd must resolve to a directory inside the project root"),
            ),
            Some(Resolution::Directory(canonical)) => {
                if below(canonical.as_str(), root) {
                    Ok(canonical.clone())
                } else {
                    Err(
                        invalid_task(
                            task,
                            "cwd must resolve to a directory inside the project root",
                        ),
                    )
                }
            },
        }
    }
}

/// The complaint about the directory that a task declares without placeholders.
pub open spec fn directory_problem(
    directories: Seq<(Seq<char>, Resolution)>,
    root: Seq<char>,
    name: Seq<char>,
    task: TaskConfig,
) -> Option<ProjectFault> {
    match task.cwd {
        None => None,
        Some(cwd) => if find(cwd@, "${"@) is Some {
            None
        } else {
            match resolved_directory(directories, root, name, cwd@) {
                Ok(_) => None,
                Err(fault) => Some(fault),
            }
        },
    }
}

/// Check the directory that a task declares.
pub fn validate_task_directory(
    directories: &Directories,
    root: &str,
    task_name: &str,
    task: &TaskConfig,
) -> (r: Result<(), ProjectError>)
    ensures
        match r {
            Ok(_) => directory_problem(directories.resolved@, root@, task_name@, *task) is None,
            Err(e) => directory_problem(directories.resolved@, root@, task_name@, *task) == Some(
                e@,
            ),
        },
{
    match &task.cwd {
        None => Ok(()),
        Some(cwd) => {
            if has_text(cwd.as_str(), "${") {
                return Ok(());
            }
            match directories.resolve(root, task_name, cwd.as_str()) {
                Ok(_) => Ok(()),
                Err(e) => Err(e),
            }
        },
    }
}


} // verus!
