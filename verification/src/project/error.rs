//! What can be wrong with a project.

use vstd::prelude::*;
use vstd::string::StringExecFns;

use crate::io::{IoError, IoErrorView};
use crate::text::{decimal, join, join_texts, number, optional_text, texts};

verus! {

/// A task identity in the single root graph.
#[derive(Debug, Clone, PartialEq, Eq, PartialOrd, Ord, Hash)]
pub struct TaskNode {
    pub id: String,
}

impl TaskNode {
    pub fn new(id: &str) -> (r: TaskNode)
        ensures
            r.id@ == id@,
    {
        TaskNode { id: id.to_owned() }
    }

    pub fn id(&self) -> (r: &str)
        ensures
            r@ == self.id@,
    {
        self.id.as_str()
    }

    /// A copy with the same identity.
    pub fn copy(&self) -> (r: TaskNode)
        ensures
            r == *self,
    {
        TaskNode { id: self.id.clone() }
    }
}

/// The identities of a list of tasks.
pub open spec fn node_ids(nodes: Seq<TaskNode>) -> Seq<Seq<char>> {
    nodes.map_values(|n: TaskNode| n.id@)
}

/// A failure to load or plan a project.
#[derive(Debug, Clone, PartialEq, Eq)]
pub enum ProjectError {
    Io { path: String, source: IoError },
    /// A task `cwd` the manifest declares cannot be resolved: a request the
    /// caller can fix, not an environment failure.
    TaskDirectory { task: String, path: String, source: IoError },
    Parse { path: String, source: String },
    MissingRoot { start: String },
    InvalidManifest { path: String, message: String },
    InvalidProject { message: String },
    UnknownPipeline { name: String, suggestion: Option<String> },
    InvalidTaskName { task: String },
    InvalidTask { task: String, message: String },
    MissingTask { task: String, suggestion: Option<String> },
    InvalidTaskReference { reference: String, from: TaskNode },
    TaskCycle { path: Vec<TaskNode> },
    UnsupportedSchema { path: String, found: u32, supported: u32 },
}

/// What a `ProjectError` says.
pub enum ProjectFault {
    Io { path: Seq<char>, source: IoErrorView },
    TaskDirectory { task: Seq<char>, path: Seq<char>, source: IoErrorView },
    Parse { path: Seq<char>, source: Seq<char> },
    MissingRoot { start: Seq<char> },
    InvalidManifest { path: Seq<char>, message: Seq<char> },
    InvalidProject { message: Seq<char> },
    UnknownPipeline { name: Seq<char>, suggestion: Option<Seq<char>> },
    InvalidTaskName { task: Seq<char> },
    InvalidTask { task: Seq<char>, message: Seq<char> },
    MissingTask { task: Seq<char>, suggestion: Option<Seq<char>> },
    InvalidTaskReference { reference: Seq<char>, from: Seq<char> },
    TaskCycle { path: Seq<Seq<char>> },
    UnsupportedSchema { path: Seq<char>, found: u32, supported: u32 },
}

impl View for ProjectError {
    type V = ProjectFault;

    open spec fn view(&self) -> ProjectFault {
        match *self {
            ProjectError::Io { path, source } => ProjectFault::Io { path: path@, source: source@ },
            ProjectError::TaskDirectory { task, path, source } => ProjectFault::TaskDirectory {
                task: task@,
                path: path@,
                source: source@,
            },
            ProjectError::Parse { path, source } => ProjectFault::Parse {
                path: path@,
                source: source@,
            },
            ProjectError::MissingRoot { start } => ProjectFault::MissingRoot { start: start@ },
            ProjectError::InvalidManifest { path, message } => ProjectFault::InvalidManifest {
                path: path@,
                message: message@,
            },
            ProjectError::InvalidProject { message } => ProjectFault::InvalidProject {
                message: message@,
            },
            ProjectError::UnknownPipeline { name, suggestion } => ProjectFault::UnknownPipeline {
                name: name@,
                suggestion: optional_text(suggestion),
            },
            ProjectError::InvalidTaskName { task } => ProjectFault::InvalidTaskName { task: task@ },
            ProjectError::InvalidTask { task, message } => ProjectFault::InvalidTask {
                task: task@,
                message: message@,
            },
            ProjectError::MissingTask { task, suggestion } => ProjectFault::MissingTask {
                task: task@,
                suggestion: optional_text(suggestion),
            },
            ProjectError::InvalidTaskReference { reference, from } =>
                ProjectFault::InvalidTaskReference { reference: reference@, from: from.id@ },
            ProjectError::TaskCycle { path } => ProjectFault::TaskCycle { path: node_ids(path@) },
            ProjectError::UnsupportedSchema { path, found, supported } =>
                ProjectFault::UnsupportedSchema { path: path@, found, supported },
        }
    }
}

/// A question after a name that is close to a known one.
pub open spec fn did_you_mean(suggestion: Option<Seq<char>>) -> Seq<char> {
    match suggestion {
        Some(name) => ". Did you mean '"@ + name + "'?"@,
        None => seq![],
    }
}

/// The text that reports a fault.
pub open spec fn fault_text(fault: ProjectFault) -> Seq<char> {
    match fault {
        ProjectFault::Io { path, source } => "could not read "@ + path + ": "@ + source.message,
        ProjectFault::TaskDirectory { task, path, source } => "task '"@ + task
            + "': could not resolve cwd "@ + path + ": "@ + source.message,
        ProjectFault::Parse { path, source } => "could not parse "@ + path + ": "@ + source,
        ProjectFault::MissingRoot { start } => "could not find a root mono.toml from "@ + start,
        ProjectFault::InvalidManifest { path, message } => "invalid manifest "@ + path + ": "@
            + message,
        ProjectFault::InvalidProject { message } => "invalid project: "@ + message,
        ProjectFault::UnknownPipeline { name, suggestion } => "unknown pipeline '"@ + name + "'"@
            + did_you_mean(suggestion),
        ProjectFault::InvalidTaskName { task } => "invalid task name '"@ + task + "'"@,
        ProjectFault::InvalidTask { task, message } => "invalid task '"@ + task + "': "@ + message,
        ProjectFault::MissingTask { task, suggestion } => "project has no task '"@ + task + "'"@
            + did_you_mean(suggestion),
        ProjectFault::InvalidTaskReference { reference, from } => "invalid task reference '"@
            + reference + "' from '"@ + from + "'"@,
        ProjectFault::TaskCycle { path } => "task dependency cycle detected: "@ + join(
            path,
            " -> "@,
        ),
        ProjectFault::UnsupportedSchema { path, found, supported } =>
            "unsupported manifest schema "@ + decimal(found as nat) + " in "@ + path
            + "; supported schema is "@ + decimal(supported as nat),
    }
}

/// A question after a name that is close to a known one.
pub fn suggestion_text(suggestion: &Option<String>) -> (r: String)
    ensures
        r@ == did_you_mean(optional_text(*suggestion)),
{
    match suggestion {
        Some(name) => {
            let mut text = ". Did you mean '".to_owned();
            text.append(name.as_str());
            text.append("'?");
            text
        },
        None => String::new(),
    }
}

/// The identities of a list of tasks.
pub fn ids_of(nodes: &Vec<TaskNode>) -> (r: Vec<String>)
    ensures
        texts(r@) == node_ids(nodes@),
{
    let mut ids: Vec<String> = Vec::new();
    let mut i: usize = 0;
    while i < nodes.len()
        invariant
            i <= nodes@.len(),
            texts(ids@) == node_ids(nodes@).take(i as int),
        decreases nodes.len() - i,
    {
        let ghost before = texts(ids@);
        ids.push(nodes[i].id.clone());
        assert(texts(ids@) =~= before.push(nodes[i as int].id@));
        i += 1;
        assert(texts(ids@) =~= node_ids(nodes@).take(i as int));
    }
    assert(texts(ids@) =~= node_ids(nodes@));
    ids
}

impl ProjectError {
    /// The text that reports the error.
    pub fn message(&self) -> (r: String)
        ensures
            r@ == fault_text(self@),
    {
        match self {
            ProjectError::Io { path, source } => {
                let mut text = "could not read ".to_owned();
                text.append(path.as_str());
                text.append(": ");
                text.append(source.message.as_str());
                text
            },
            ProjectError::TaskDirectory { task, path, source } => {
                let mut text = "task '".to_owned();
                text.append(task.as_str());
                text.append("': could not resolve cwd ");
                text.append(path.as_str());
                text.append(": ");
                text.append(source.message.as_str());
                text
            },
            ProjectError::Parse { path, source } => {
                let mut text = "could not parse ".to_owned();
                text.append(path.as_str());
                text.append(": ");
                text.append(source.as_str());
                text
            },
            ProjectError::MissingRoot { start } => {
                let mut text = "could not find a root mono.toml from ".to_owned();
                text.append(start.as_str());
                text
            },
            ProjectError::InvalidManifest { path, message } => {
                let mut text = "invalid manifest ".to_owned();
                text.append(path.as_str());
                text.append(": ");
                text.append(message.as_str());
                text
            },
            ProjectError::InvalidProject { message } => {
                let mut text = "invalid project: ".to_owned();
                text.append(message.as_str());
                text
            },
            ProjectError::UnknownPipeline { name, suggestion } => {
                let mut text = "unknown pipeline '".to_owned();
                text.append(name.as_str());
                text.append("'");
                text.append(suggestion_text(suggestion).as_str());
                text
            },
            ProjectError::InvalidTaskName { task } => {
                let mut text = "invalid task name '".to_owned();
                text.append(task.as_str());
                text.append("'");
                text
            },
            ProjectError::InvalidTask { task, message } => {
                let mut text = "invalid task '".to_owned();
                text.append(task.as_str());
                text.append("': ");
                text.append(message.as_str());
                text
            },
            ProjectError::MissingTask { task, suggestion } => {
                let mut text = "project has no task '".to_owned();
                text.append(task.as_str());
                text.append("'");
                text.append(suggestion_text(suggestion).as_str());
                text
            },
            ProjectError::InvalidTaskReference { reference, from } => {
                let mut text = "invalid task reference '".to_owned();
                text.append(reference.as_str());
                text.append("' from '");
                text.append(from.id.as_str());
                text.append("'");
                text
            },
            ProjectError::TaskCycle { path } => {
                let mut text = "task dependency cycle detected: ".to_owned();
                text.append(join_texts(&ids_of(path), " -> ").as_str());
                text
            },
            ProjectError::UnsupportedSchema { path, found, supported } => {
                let mut text = "unsupported manifest schema ".to_owned();
                text.append(number(*found as u128).as_str());
                text.append(" in ");
                text.append(path.as_str());
                text.append("; supported schema is ");
                text.append(number(*supported as u128).as_str());
                text
            },
        }
    }

    /// The text of the failure that this one wraps, where it wraps one.
    pub fn source(&self) -> (r: Option<String>)
        ensures
            optional_text(r) == (match self@ {
                ProjectFault::Io { source, .. } => Some(source.message),
                ProjectFault::TaskDirectory { source, .. } => Some(source.message),
                ProjectFault::Parse { source, .. } => Some(source),
                _ => None,
            }),
    {
        match self {
            ProjectError::Io { source, .. } => Some(source.message.clone()),
            ProjectError::TaskDirectory { source, .. } => Some(source.message.clone()),
            ProjectError::Parse { source, .. } => Some(source.clone()),
            _ => None,
        }
    }
}

} // verus!
