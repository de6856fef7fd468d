//! What can be wrong with a workspace.

use vstd::prelude::*;
use vstd::string::StringExecFns;

use crate::io::{IoError, IoErrorView};
use crate::text::{join, join_texts, optional_text, texts};

verus! {

/// A task of one package, or of the workspace itself.
#[derive(Debug, Clone, PartialEq, Eq, PartialOrd, Ord, Hash)]
pub struct TaskNode {
    pub package: String,
    pub task: String,
}

/// What a `TaskNode` says: the package and the task.
pub type Node = (Seq<char>, Seq<char>);

impl View for TaskNode {
    type V = Node;

    open spec fn view(&self) -> Node {
        (self.package@, self.task@)
    }
}

impl TaskNode {
    pub fn new(package: &str, task: &str) -> (r: TaskNode)
        ensures
            r@ == (package@, task@),
    {
        TaskNode { package: package.to_owned(), task: task.to_owned() }
    }

    /// A copy with the same identity.
    pub fn copy(&self) -> (r: TaskNode)
        ensures
            r == *self,
    {
        TaskNode { package: self.package.clone(), task: self.task.clone() }
    }
}

/// What a list of tasks says.
pub open spec fn nodes(list: Seq<TaskNode>) -> Seq<Node> {
    list.map_values(|n: TaskNode| n@)
}

/// The expected failures while loading or planning a workspace.
#[derive(Debug)]
pub enum WorkspaceError {
    Io { path: String, source: IoError },
    Parse { path: String, source: String },
    MissingRoot { start: String },
    MissingPackageManifest { path: String },
    InvalidManifest { path: String, message: String },
    InvalidWorkspace { message: String },
    InvalidMemberPattern { pattern: String },
    DuplicatePackage { name: String },
    UnknownPackage { name: String, suggestion: Option<String> },
    UnknownPipeline { name: String, suggestion: Option<String> },
    InvalidTaskName { package: String, task: String },
    InvalidTask { package: String, task: String, message: String },
    MissingTask { package: String, task: String, suggestion: Option<String> },
    InvalidTaskReference { reference: String, from: TaskNode },
    TaskOutsideSelectedPackage { package: String, selected: String },
    TaskCycle { path: Vec<TaskNode> },
}

/// What a `WorkspaceError` says.
pub enum WorkspaceFault {
    Io { path: Seq<char>, source: IoErrorView },
    Parse { path: Seq<char>, source: Seq<char> },
    MissingRoot { start: Seq<char> },
    MissingPackageManifest { path: Seq<char> },
    InvalidManifest { path: Seq<char>, message: Seq<char> },
    InvalidWorkspace { message: Seq<char> },
    InvalidMemberPattern { pattern: Seq<char> },
    DuplicatePackage { name: Seq<char> },
    UnknownPackage { name: Seq<char>, suggestion: Option<Seq<char>> },
    UnknownPipeline { name: Seq<char>, suggestion: Option<Seq<char>> },
    InvalidTaskName { package: Seq<char>, task: Seq<char> },
    InvalidTask { package: Seq<char>, task: Seq<char>, message: Seq<char> },
    MissingTask { package: Seq<char>, task: Seq<char>, suggestion: Option<Seq<char>> },
    InvalidTaskReference { reference: Seq<char>, from: Node },
    TaskOutsideSelectedPackage { package: Seq<char>, selected: Seq<char> },
    TaskCycle { path: Seq<Node> },
}

impl View for WorkspaceError {
    type V = WorkspaceFault;

    open spec fn view(&self) -> WorkspaceFault {
        match *self {
            WorkspaceError::Io { path, source } => WorkspaceFault::Io {
                path: path@,
                source: source@,
            },
            WorkspaceError::Parse { path, source } => WorkspaceFault::Parse {
                path: path@,
                source: source@,
            },
            WorkspaceError::MissingRoot { start } => WorkspaceFault::MissingRoot { start: start@ },
            WorkspaceError::MissingPackageManifest { path } => {
                WorkspaceFault::MissingPackageManifest { path: path@ }
            },
            WorkspaceError::InvalidManifest { path, message } => WorkspaceFault::InvalidManifest {
                path: path@,
                message: message@,
            },
            WorkspaceError::InvalidWorkspace { message } => WorkspaceFault::InvalidWorkspace {
                message: message@,
            },
            WorkspaceError::InvalidMemberPattern { pattern } => {
                WorkspaceFault::InvalidMemberPattern { pattern: pattern@ }
            },
            WorkspaceError::DuplicatePackage { name } => WorkspaceFault::DuplicatePackage {
                name: name@,
            },
            WorkspaceError::UnknownPackage { name, suggestion } => WorkspaceFault::UnknownPackage {
                name: name@,
                suggestion: optional_text(suggestion),
            },
            WorkspaceError::UnknownPipeline { name, suggestion } => {
                WorkspaceFault::UnknownPipeline {
                    name: name@,
                    suggestion: optional_text(suggestion),
                }
            },
            WorkspaceError::InvalidTaskName { package, task } => WorkspaceFault::InvalidTaskName {
                package: package@,
                task: task@,
            },
            WorkspaceError::InvalidTask { package, task, message } => {
                WorkspaceFault::InvalidTask { package: package@, task: task@, message: message@ }
            },
            WorkspaceError::MissingTask { package, task, suggestion } => {
                WorkspaceFault::MissingTask {
                    package: package@,
                    task: task@,
                    suggestion: optional_text(suggestion),
                }
            },
            WorkspaceError::InvalidTaskReference { reference, from } => {
                WorkspaceFault::InvalidTaskReference { reference: reference@, from: from@ }
            },
            WorkspaceError::TaskOutsideSelectedPackage { package, selected } => {
                WorkspaceFault::TaskOutsideSelectedPackage {
                    package: package@,
                    selected: selected@,
                }
            },
            WorkspaceError::TaskCycle { path } => WorkspaceFault::TaskCycle { path: nodes(path@) },
        }
    }
}

/// A question behind a failure, where there is a name that may have been meant.
pub open spec fn meant(suggestion: Option<Seq<char>>) -> Seq<char> {
    match suggestion {
        Some(name) => ". Did you mean '"@ + name + "'?"@,
        None => Seq::empty(),
    }
}

/// The name of a task with its package.
pub open spec fn qualified(node: Node) -> Seq<char> {
    node.0 + ":"@ + node.1
}

/// The names of some tasks with their packages.
pub open spec fn qualified_names(path: Seq<Node>) -> Seq<Seq<char>> {
    path.map_values(|n: Node| qualified(n))
}

/// The text that reports a fault.
pub open spec fn workspace_fault_text(fault: WorkspaceFault) -> Seq<char> {
    match fault {
        WorkspaceFault::Io { path, source } => "could not read "@ + path + ": "@ + source.message,
        WorkspaceFault::Parse { path, source } => "could not parse "@ + path + ": "@ + source,
        WorkspaceFault::MissingRoot { start } => "could not find a root monorepo.toml from "@
            + start,
        WorkspaceFault::MissingPackageManifest { path } => "workspace member is missing "@ + path,
        WorkspaceFault::InvalidManifest { path, message } => "invalid manifest "@ + path + ": "@
            + message,
        WorkspaceFault::InvalidWorkspace { message } => "invalid workspace: "@ + message,
        WorkspaceFault::InvalidMemberPattern { pattern } => "invalid workspace member pattern '"@
            + pattern + "'"@,
        WorkspaceFault::DuplicatePackage { name } => "duplicate package name '"@ + name + "'"@,
        WorkspaceFault::UnknownPackage { name, suggestion } => "unknown package '"@ + name + "'"@
            + meant(suggestion),
        WorkspaceFault::UnknownPipeline { name, suggestion } => "unknown pipeline '"@ + name + "'"@
            + meant(suggestion),
        WorkspaceFault::InvalidTaskName { package, task } => "invalid task name '"@ + qualified(
            (package, task),
        ) + "'"@,
        WorkspaceFault::InvalidTask { package, task, message } => "invalid task '"@ + qualified(
            (package, task),
        ) + "': "@ + message,
        WorkspaceFault::MissingTask { package, task, suggestion } => "package '"@ + package
            + "' has no task '"@ + task + "'"@ + meant(suggestion),
        WorkspaceFault::InvalidTaskReference { reference, from } => "invalid task reference '"@
            + reference + "' from '"@ + qualified(from) + "'"@,
        WorkspaceFault::TaskOutsideSelectedPackage { package, selected } =>
            "task root belongs to package '"@ + package + "', but package selection is '"@
                + selected
                + "'; omit --package for workspace tasks or select a package task"@,
        WorkspaceFault::TaskCycle { path } => "task dependency cycle detected: "@ + join(
            qualified_names(path),
            " -> "@,
        ),
    }
}

fn say_meant(suggestion: &Option<String>) -> (r: String)
    ensures
        r@ == meant(optional_text(*suggestion)),
{
    match suggestion {
        Some(name) => {
            let mut text = ". Did you mean '".to_owned();
            text.append(name.as_str());
            text.append("'?");
            text
        },
        None => {
            let none = String::new();
            assert(none@ =~= Seq::empty());
            none
        },
    }
}

fn say_node(package: &str, task: &str) -> (r: String)
    ensures
        r@ == qualified((package@, task@)),
{
    let mut text = package.to_owned();
    text.append(":");
    text.append(task);
    text
}

fn say_nodes(path: &Vec<TaskNode>) -> (r: Vec<String>)
    ensures
        texts(r@) == qualified_names(nodes(path@)),
{
    let ghost want = qualified_names(nodes(path@));
    let mut names: Vec<String> = Vec::new();
    let mut i: usize = 0;
    assert(texts(names@) =~= want.take(0));
    while i < path.len()
        invariant
            i <= path@.len(),
            want == qualified_names(nodes(path@)),
            texts(names@) == want.take(i as int),
        decreases path.len() - i,
    {
        let ghost before = texts(names@);
        let name = say_node(path[i].package.as_str(), path[i].task.as_str());
        assert(want[i as int] == name@);
        names.push(name);
        assert(texts(names@) =~= before.push(name@));
        i += 1;
        assert(texts(names@) =~= want.take(i as int));
    }
    assert(want.take(i as int) =~= want);
    names
}

fn say(a: &str, b: &str, c: &str, d: &str) -> (r: String)
    ensures
        r@ == a@ + b@ + c@ + d@,
{
    let mut text = a.to_owned();
    text.append(b);
    text.append(c);
    text.append(d);
    text
}

fn say_two(a: &str, b: &str) -> (r: String)
    ensures
        r@ == a@ + b@,
{
    let mut text = a.to_owned();
    text.append(b);
    text
}

impl WorkspaceError {
    /// The text that reports the error.
    pub fn message(&self) -> (r: String)
        ensures
            r@ == workspace_fault_text(self@),
    {
        match self {
            WorkspaceError::Io { path, source } => say(
                "could not read ",
                path.as_str(),
                ": ",
                source.message.as_str(),
            ),
            WorkspaceError::Parse { path, source } => say(
                "could not parse ",
                path.as_str(),
                ": ",
                source.as_str(),
            ),
            WorkspaceError::MissingRoot { start } => say_two(
                "could not find a root monorepo.toml from ",
                start.as_str(),
            ),
            WorkspaceError::MissingPackageManifest { path } => say_two(
                "workspace member is missing ",
                path.as_str(),
            ),
            WorkspaceError::InvalidManifest { path, message } => say(
                "invalid manifest ",
                path.as_str(),
                ": ",
                message.as_str(),
            ),
            WorkspaceError::InvalidWorkspace { message } => say_two(
                "invalid workspace: ",
                message.as_str(),
            ),
            WorkspaceError::InvalidMemberPattern { pattern } => {
                let mut text = say_two("invalid workspace member pattern '", pattern.as_str());
                text.append("'");
                text
            },
            WorkspaceError::DuplicatePackage { name } => {
                let mut text = say_two("duplicate package name '", name.as_str());
                text.append("'");
                text
            },
            WorkspaceError::UnknownPackage { name, suggestion } => say(
                "unknown package '",
                name.as_str(),
                "'",
                say_meant(suggestion).as_str(),
            ),
            WorkspaceError::UnknownPipeline { name, suggestion } => say(
                "unknown pipeline '",
                name.as_str(),
                "'",
                say_meant(suggestion).as_str(),
            ),
            WorkspaceError::InvalidTaskName { package, task } => {
                let node = say_node(package.as_str(), task.as_str());
                let mut text = say_two("invalid task name '", node.as_str());
                text.append("'");
                text
            },
            WorkspaceError::InvalidTask { package, task, message } => say(
                "invalid task '",
                say_node(package.as_str(), task.as_str()).as_str(),
                "': ",
                message.as_str(),
            ),
            WorkspaceError::MissingTask { package, task, suggestion } => {
                let mut text = say(
                    "package '",
                    package.as_str(),
                    "' has no task '",
                    task.as_str(),
                );
                text.append("'");
                text.append(say_meant(suggestion).as_str());
                text
            },
            WorkspaceError::InvalidTaskReference { reference, from } => {
                let mut text = say(
                    "invalid task reference '",
                    reference.as_str(),
                    "' from '",
                    say_node(from.package.as_str(), from.task.as_str()).as_str(),
                );
                text.append("'");
                text
            },
            WorkspaceError::TaskOutsideSelectedPackage { package, selected } => {
                let mut text = say(
                    "task root belongs to package '",
                    package.as_str(),
                    "', but package selection is '",
                    selected.as_str(),
                );
                text.append("'; omit --package for workspace tasks or select a package task");
                text
            },
            WorkspaceError::TaskCycle { path } => say_two(
                "task dependency cycle detected: ",
                join_texts(&say_nodes(path), " -> ").as_str(),
            ),
        }
    }

    /// The text of the failure that this one wraps, where it wraps one.
    pub fn source(&self) -> (r: Option<String>)
        ensures
            optional_text(r) == (match self@ {
                WorkspaceFault::Io { source, .. } => Some(source.message),
                WorkspaceFault::Parse { source, .. } => Some(source),
                _ => None,
            }),
    {
        match self {
            WorkspaceError::Io { source, .. } => Some(source.message.clone()),
            WorkspaceError::Parse { source, .. } => Some(source.clone()),
            _ => None,
        }
    }
}

} // verus!
