//! The rules that the manifests of a workspace must keep.

use vstd::prelude::*;
use vstd::string::StringExecFns;

use crate::config::{process_value_problem, validate_process_value, TaskConfig};
use crate::io::{IoError, IoErrorKind};
use crate::map::{lookup, TextMap};
use crate::path::{below, is_below, join_path, join_paths};
use crate::project::graph::Tasks;
use crate::project::matrix::text_entries;
use crate::project::validate::{
    any_positive, argument_problem, check_arguments, check_environment, check_patterns,
    environment_problem, has_positive, is_relative_path, not_found, patterns_problem,
    valid_relative_path, Directories, Resolution,
};
use crate::project::{first_problem, lemma_first_problem};
use crate::text::{has_char, split_once_text, texts};
use crate::workspace::error::{TaskNode, WorkspaceError, WorkspaceFault};
use crate::workspace::graph::{reference_problem, resolved_ref};

verus! {

/// Whether a text can name a package, a task or a pipeline.
pub open spec fn is_name(value: Seq<char>) -> bool {
    value.len() > 0 && !value.contains(':') && !value.contains('\0')
}

/// The complaint about an identifier.
pub open spec fn identifier_problem(
    path: Seq<char>,
    label: Seq<char>,
    value: Seq<char>,
) -> Option<WorkspaceFault> {
    if is_name(value) {
        None
    } else {
        Some(
            WorkspaceFault::InvalidManifest {
                path,
                message: label + " must be non-empty and cannot contain ':' or NUL"@,
            },
        )
    }
}

pub fn validate_identifier(path: &str, label: &str, value: &str) -> (r: Result<(), WorkspaceError>)
    ensures
        match r {
            Ok(_) => identifier_problem(path@, label@, value@) is None,
            Err(e) => identifier_problem(path@, label@, value@) == Some(e@),
        },
{
    if value.is_empty() || has_char(value, ':') || has_char(value, '\0') {
        let mut message = label.to_owned();
        message.append(" must be non-empty and cannot contain ':' or NUL");
        return Err(WorkspaceError::InvalidManifest { path: path.to_owned(), message });
    }
    Ok(())
}

pub fn validate_task_reference(reference: &str) -> (r: Result<(), String>)
    ensures
        match r {
            Ok(_) => reference_problem(reference@) is None,
            Err(message) => reference_problem(reference@) == Some(message@),
        },
{
    if reference.is_empty() || has_char(reference, '\0') {
        return Err("task reference must be non-empty and cannot contain NUL".to_owned());
    }
    match split_once_text(reference, ":") {
        None => Ok(()),
        Some((package, task)) => {
            if !package.as_str().is_empty() && !task.as_str().is_empty() && !has_char(
                task.as_str(),
                ':',
            ) {
                Ok(())
            } else {
                let mut message = "invalid task reference '".to_owned();
                message.append(reference);
                message.append("'");
                Err(message)
            }
        },
    }
}

/// The task that a reference of `current` stands for.
pub fn resolve_task_ref(current: &TaskNode, reference: &str) -> (r: Result<
    TaskNode,
    WorkspaceError,
>)
    ensures
        match r {
            Ok(node) => resolved_ref(current@, reference@) == Ok::<_, WorkspaceFault>(node@),
            Err(e) => resolved_ref(current@, reference@) == Err::<
                (Seq<char>, Seq<char>),
                WorkspaceFault,
            >(e@),
        },
{
    if let Err(_) = validate_task_reference(reference) {
        return Err(
            WorkspaceError::InvalidTaskReference {
                reference: reference.to_owned(),
                from: current.copy(),
            },
        );
    }
    match split_once_text(reference, ":") {
        Some((package, task)) => Ok(TaskNode { package, task }),
        None => Ok(TaskNode::new(current.package.as_str(), reference)),
    }
}

/// The complaint about a list of cached variables.
pub open spec fn variables_problem(names: Seq<Seq<char>>) -> Option<Seq<char>>
    decreases names.len(),
{
    if names.len() == 0 {
        None
    } else if names[0].len() == 0 || names[0].contains('=') {
        Some("cache_env names must be non-empty and cannot contain '='"@)
    } else {
        match process_value_problem(names[0], "cache environment name"@) {
            Some(message) => Some(message),
            None => variables_problem(names.drop_first()),
        }
    }
}

#[verifier::loop_isolation(false)]
fn check_variables(names: &Vec<String>) -> (r: Result<(), String>)
    ensures
        match r {
            Ok(_) => variables_problem(texts(names@)) is None,
            Err(message) => variables_problem(texts(names@)) == Some(message@),
        },
{
    let ghost all = texts(names@);
    let mut i: usize = 0;
    assert(all.skip(0) =~= all);
    while i < names.len()
        invariant
            i <= all.len(),
            variables_problem(all) == variables_problem(all.skip(i as int)),
        decreases all.len() - i,
    {
        let ghost rest = all.skip(i as int);
        let name = names[i].as_str();
        assert(rest[0] == name@);
        if name.is_empty() || has_char(name, '=') {
            return Err("cache_env names must be non-empty and cannot contain '='".to_owned());
        }
        if let Err(message) = validate_process_value(name, "cache environment name") {
            return Err(message);
        }
        assert(rest.drop_first() =~= all.skip(i as int + 1));
        i += 1;
    }
    Ok(())
}

/// The canonical path of a task's working directory, which must be a directory
/// below that of its package.
pub open spec fn resolved_directory(
    directories: Seq<(Seq<char>, Resolution)>,
    package_path: Seq<char>,
    package: Seq<char>,
    task: Seq<char>,
    cwd: Seq<char>,
) -> Result<Seq<char>, WorkspaceFault> {
    let path = join_path(package_path, cwd);
    let outside = WorkspaceFault::InvalidTask {
        package,
        task,
        message: "cwd must resolve to a directory inside the package"@,
    };
    match lookup(directories, path) {
        None => Err(WorkspaceFault::Io { path, source: not_found() }),
        Some(Resolution::Failed(error)) => Err(WorkspaceFault::Io { path, source: error@ }),
        Some(Resolution::Other(_)) => Err(outside),
        Some(Resolution::Directory(canonical)) => if is_below(canonical@, package_path) {
            Ok(canonical@)
        } else {
            Err(outside)
        },
    }
}

/// The canonical path of a task's working directory.
pub fn resolve_directory(
    directories: &Directories,
    package_path: &str,
    package: &str,
    task: &str,
    cwd: &str,
) -> (r: Result<String, WorkspaceError>)
    ensures
        match r {
            Ok(path) => resolved_directory(
                directories.resolved@,
                package_path@,
                package@,
                task@,
                cwd@,
            ) == Ok::<Seq<char>, WorkspaceFault>(path@),
            Err(e) => resolved_directory(
                directories.resolved@,
                package_path@,
                package@,
                task@,
                cwd@,
            ) == Err::<Seq<char>, WorkspaceFault>(e@),
        },
{
    let path = join_paths(package_path, cwd);
    match directories.resolved.get(path.as_str()) {
        None => {
            let source = IoError::new(
                IoErrorKind::NotFound,
                "No such file or directory (os error 2)",
            );
            return Err(WorkspaceError::Io { path, source });
        },
        Some(Resolution::Failed(error)) => {
            return Err(WorkspaceError::Io { path, source: error.copy() });
        },
        Some(Resolution::Directory(canonical)) => {
            if below(canonical.as_str(), package_path) {
                return Ok(canonical.clone());
            }
        },
        Some(Resolution::Other(_)) => {},
    }
    Err(invalid_task(package, task, "cwd must resolve to a directory inside the package"))
}

/// The complaint about one task of a package: the first rule, in this order,
/// that the task breaks.
pub open spec fn task_problem(
    path: Seq<char>,
    package_path: Seq<char>,
    package: Seq<char>,
    name: Seq<char>,
    task: TaskConfig,
    directories: Seq<(Seq<char>, Resolution)>,
) -> Option<WorkspaceFault> {
    let invalid = |message: Seq<char>|
        Some(WorkspaceFault::InvalidTask { package, task: name, message });
    let command = texts(task.command@);
    let inputs = texts(task.inputs@);
    let outputs = texts(task.outputs@);
    if let Some(fault) = identifier_problem(
        path,
        "task name in package '"@ + package + "'"@,
        name,
    ) {
        Some(fault)
    } else if command.len() == 0 || command[0].len() == 0 {
        invalid("command must contain an executable"@)
    } else if let Some(message) = argument_problem(command, 0) {
        invalid(message)
    } else if let Some(message) = environment_problem(text_entries(task.env@)) {
        invalid(message)
    } else if task.cache && !has_positive(inputs) {
        invalid("cacheable tasks must declare at least one positive input pattern"@)
    } else if outputs.len() > 0 && !has_positive(outputs) {
        invalid("outputs must declare at least one positive pattern"@)
    } else if let Some(message) = patterns_problem(inputs) {
        invalid(message)
    } else if let Some(message) = patterns_problem(outputs) {
        invalid(message)
    } else if let Some(message) = variables_problem(texts(task.cache_env@)) {
        invalid(message)
    } else if task.timeout_seconds == 0 {
        invalid("timeout_seconds must be greater than zero"@)
    } else if task.resource_group is Some && (task.resource_group->0@.len() == 0
        || task.resource_group->0@.contains(':')) {
        invalid("resource_group must be non-empty and cannot contain ':'"@)
    } else if task.resource_group is Some && process_value_problem(
        task.resource_group->0@,
        "resource_group"@,
    ) is Some {
        invalid(process_value_problem(task.resource_group->0@, "resource_group"@)->0)
    } else if task.cwd is Some && !is_relative_path(task.cwd->0@) {
        invalid("cwd must be an existing relative directory without '..'"@)
    } else if task.cwd is Some {
        match resolved_directory(directories, package_path, package, name, task.cwd->0@) {
            Ok(_) => None,
            Err(fault) => Some(fault),
        }
    } else {
        None
    }
}

fn invalid_task(package: &str, task: &str, message: &str) -> (r: WorkspaceError)
    ensures
        r@ == (WorkspaceFault::InvalidTask { package: package@, task: task@, message: message@ }),
{
    WorkspaceError::InvalidTask {
        package: package.to_owned(),
        task: task.to_owned(),
        message: message.to_owned(),
    }
}

fn check_task(
    manifest_path: &str,
    package_path: &str,
    package: &str,
    name: &str,
    task: &TaskConfig,
    directories: &Directories,
) -> (r: Result<(), WorkspaceError>)
    ensures
        match r {
            Ok(_) => task_problem(
                manifest_path@,
                package_path@,
                package@,
                name@,
                *task,
                directories.resolved@,
            ) is None,
            Err(e) => task_problem(
                manifest_path@,
                package_path@,
                package@,
                name@,
                *task,
                directories.resolved@,
            ) == Some(e@),
        },
{
    let mut label = "task name in package '".to_owned();
    label.append(package);
    label.append("'");
    if let Err(e) = validate_identifier(manifest_path, label.as_str(), name) {
        return Err(e);
    }
    assert(task.command@.len() > 0 ==> texts(task.command@)[0] == task.command@[0]@);
    if task.command.len() == 0 || task.command[0].as_str().is_empty() {
        return Err(invalid_task(package, name, "command must contain an executable"));
    }
    if let Err(message) = check_arguments(&task.command) {
        return Err(invalid_task(package, name, message.as_str()));
    }
    if let Err(message) = check_environment(&task.env) {
        return Err(invalid_task(package, name, message.as_str()));
    }
    if task.cache && !any_positive(&task.inputs) {
        return Err(
            invalid_task(
                package,
                name,
                "cacheable tasks must declare at least one positive input pattern",
            ),
        );
    }
    if task.outputs.len() > 0 && !any_positive(&task.outputs) {
        return Err(
            invalid_task(package, name, "outputs must declare at least one positive pattern"),
        );
    }
    if let Err(message) = check_patterns(&task.inputs) {
        return Err(invalid_task(package, name, message.as_str()));
    }
    if let Err(message) = check_patterns(&task.outputs) {
        return Err(invalid_task(package, name, message.as_str()));
    }
    if let Err(message) = check_variables(&task.cache_env) {
        return Err(invalid_task(package, name, message.as_str()));
    }
    if task.timeout_seconds == 0 {
        return Err(invalid_task(package, name, "timeout_seconds must be greater than zero"));
    }
    if let Some(group) = &task.resource_group {
        if group.as_str().is_empty() || has_char(group.as_str(), ':') {
            return Err(
                invalid_task(
                    package,
                    name,
                    "resource_group must be non-empty and cannot contain ':'",
                ),
            );
        }
        if let Err(message) = validate_process_value(group.as_str(), "resource_group") {
            return Err(invalid_task(package, name, message.as_str()));
        }
    }
    if let Some(cwd) = &task.cwd {
        if !valid_relative_path(cwd.as_str()) {
            return Err(
                invalid_task(
                    package,
                    name,
                    "cwd must be an existing relative directory without '..'",
                ),
            );
        }
        if let Err(e) = resolve_directory(directories, package_path, package, name, cwd.as_str()) {
            return Err(e);
        }
    }
    Ok(())
}

/// The complaint about each task of a package.
pub open spec fn tasks_problem(
    path: Seq<char>,
    package_path: Seq<char>,
    package: Seq<char>,
    tasks: Tasks,
    directories: Seq<(Seq<char>, Resolution)>,
) -> spec_fn(int) -> Option<WorkspaceFault> {
    |i: int| task_problem(path, package_path, package, tasks[i].0, tasks[i].1, directories)
}

/// The complaint about a package: its name, or the first task that breaks a rule.
pub open spec fn package_problem(
    path: Seq<char>,
    package_path: Seq<char>,
    package: Seq<char>,
    tasks: Tasks,
    directories: Seq<(Seq<char>, Resolution)>,
) -> Option<WorkspaceFault> {
    match identifier_problem(path, "package name"@, package) {
        Some(fault) => Some(fault),
        None => first_problem(
            tasks.len(),
            tasks_problem(path, package_path, package, tasks, directories),
        ),
    }
}

/// Check the name and the tasks of a package.
#[verifier::loop_isolation(false)]
pub fn validate_package_config(
    manifest_path: &str,
    package_path: &str,
    package: &str,
    tasks: &TextMap<TaskConfig>,
    directories: &Directories,
) -> (r: Result<(), WorkspaceError>)
    ensures
        match r {
            Ok(_) => package_problem(
                manifest_path@,
                package_path@,
                package@,
                tasks@,
                directories.resolved@,
            ) is None,
            Err(e) => package_problem(
                manifest_path@,
                package_path@,
                package@,
                tasks@,
                directories.resolved@,
            ) == Some(e@),
        },
{
    if let Err(e) = validate_identifier(manifest_path, "package name", package) {
        return Err(e);
    }
    let ghost problem = tasks_problem(
        manifest_path@,
        package_path@,
        package@,
        tasks@,
        directories.resolved@,
    );
    let mut i: usize = 0;
    while i < tasks.len()
        invariant
            i <= tasks@.len(),
            first_problem(i as nat, problem) is None,
        decreases tasks@.len() - i,
    {
        let name = tasks.key_at(i);
        let task = tasks.value_at(i);
        if let Err(e) = check_task(manifest_path, package_path, package, name, task, directories) {
            proof {
                assert(problem(i as int) == Some(e@));
                lemma_first_problem(tasks@.len(), problem, i as nat);
            }
            return Err(e);
        }
        assert(problem(i as int) is None);
        i += 1;
    }
    Ok(())
}

} // verus!
