//! One task of a workspace plan, as it will run.

use vstd::prelude::*;

use crate::map::{lookup, TextMap};
use crate::project::matrix::{text_entries, Dimensions};
use crate::project::planned::declared_cwd;
use crate::project::validate::Resolution;
use crate::text::{optional_text, texts};
use crate::time::Duration;
use crate::workspace::error::{nodes, Node, TaskNode, WorkspaceFault};
use crate::workspace::graph::{resolved_refs, task_of, workspace_name, Scope};
use crate::workspace::validate::resolved_directory;

verus! {

/// One executable task in a deterministic task-DAG plan.
#[derive(Debug, Clone, PartialEq, Eq)]
pub struct PlannedTask {
    pub package: String,
    pub package_path: String,
    pub task: String,
    pub command: Vec<String>,
    pub cwd: String,
    pub env: TextMap<String>,
    pub cache: bool,
    pub inputs: Vec<String>,
    pub outputs: Vec<String>,
    pub cache_env: Vec<String>,
    pub timeout: Duration,
    pub resource_group: Option<String>,
    pub depends_on: Vec<TaskNode>,
}

/// What a `PlannedTask` says.
pub struct PlannedTaskView {
    pub package: Seq<char>,
    pub package_path: Seq<char>,
    pub task: Seq<char>,
    pub command: Seq<Seq<char>>,
    pub cwd: Seq<char>,
    pub env: Dimensions,
    pub cache: bool,
    pub inputs: Seq<Seq<char>>,
    pub outputs: Seq<Seq<char>>,
    pub cache_env: Seq<Seq<char>>,
    pub timeout: Duration,
    pub resource_group: Option<Seq<char>>,
    pub depends_on: Seq<Node>,
}

impl View for PlannedTask {
    type V = PlannedTaskView;

    open spec fn view(&self) -> PlannedTaskView {
        PlannedTaskView {
            package: self.package@,
            package_path: self.package_path@,
            task: self.task@,
            command: texts(self.command@),
            cwd: self.cwd@,
            env: text_entries(self.env@),
            cache: self.cache,
            inputs: texts(self.inputs@),
            outputs: texts(self.outputs@),
            cache_env: texts(self.cache_env@),
            timeout: self.timeout,
            resource_group: optional_text(self.resource_group),
            depends_on: nodes(self.depends_on@),
        }
    }
}

/// What a plan says.
pub open spec fn plan_view(plan: Seq<PlannedTask>) -> Seq<PlannedTaskView> {
    plan.map_values(|t: PlannedTask| t@)
}

impl PlannedTask {
    pub fn node(&self) -> (r: TaskNode)
        ensures
            r@ == (self.package@, self.task@),
    {
        TaskNode::new(self.package.as_str(), self.task.as_str())
    }

    pub fn package(&self) -> (r: &str)
        ensures
            r@ == self.package@,
    {
        self.package.as_str()
    }

    pub fn package_path(&self) -> (r: &str)
        ensures
            r@ == self.package_path@,
    {
        self.package_path.as_str()
    }

    pub fn task(&self) -> (r: &str)
        ensures
            r@ == self.task@,
    {
        self.task.as_str()
    }

    pub fn command(&self) -> (r: &Vec<String>)
        ensures
            *r == self.command,
    {
        &self.command
    }

    pub fn cwd(&self) -> (r: &str)
        ensures
            r@ == self.cwd@,
    {
        self.cwd.as_str()
    }

    pub fn env(&self) -> (r: &TextMap<String>)
        ensures
            *r == self.env,
    {
        &self.env
    }

    pub fn cache(&self) -> (r: bool)
        ensures
            r == self.cache,
    {
        self.cache
    }

    pub fn inputs(&self) -> (r: &Vec<String>)
        ensures
            *r == self.inputs,
    {
        &self.inputs
    }

    pub fn outputs(&self) -> (r: &Vec<String>)
        ensures
            *r == self.outputs,
    {
        &self.outputs
    }

    pub fn cache_env(&self) -> (r: &Vec<String>)
        ensures
            *r == self.cache_env,
    {
        &self.cache_env
    }

    pub fn timeout(&self) -> (r: Duration)
        ensures
            r == self.timeout,
    {
        self.timeout
    }

    pub fn resource_group(&self) -> (r: Option<&str>)
        ensures
            match (r, self.resource_group) {
                (Some(group), Some(own)) => group@ == own@,
                (None, None) => true,
                _ => false,
            },
    {
        match &self.resource_group {
            Some(group) => Some(group.as_str()),
            None => None,
        }
    }

    pub fn depends_on(&self) -> (r: &Vec<TaskNode>)
        ensures
            *r == self.depends_on,
    {
        &self.depends_on
    }
}

/// The name under which the tasks of a package are planned, and its directory.
pub open spec fn package_of(scope: Scope, package: Seq<char>) -> (Seq<char>, Seq<char>) {
    if package == workspace_name() {
        (workspace_name(), scope.root)
    } else {
        match lookup(scope.packages, package) {
            Some(found) => (found.name, found.path),
            None => (package, scope.root),
        }
    }
}

/// The task `node` as it will run.
pub open spec fn planned_task(
    scope: Scope,
    directories: Seq<(Seq<char>, Resolution)>,
    node: Node,
) -> Result<PlannedTaskView, WorkspaceFault> {
    let (package, package_path) = package_of(scope, node.0);
    match task_of(scope, node) {
        Err(fault) => Err(fault),
        Ok(task) => match resolved_directory(
            directories,
            package_path,
            package,
            node.1,
            declared_cwd(task),
        ) {
            Err(fault) => Err(fault),
            Ok(cwd) => match resolved_refs(node, texts(task.depends_on@)) {
                Err(fault) => Err(fault),
                Ok(needed) => Ok(
                    PlannedTaskView {
                        package,
                        package_path,
                        task: node.1,
                        command: texts(task.command@),
                        cwd,
                        env: text_entries(task.env@),
                        cache: task.cache,
                        inputs: texts(task.inputs@),
                        outputs: texts(task.outputs@),
                        cache_env: texts(task.cache_env@),
                        timeout: Duration {
                            nanos: (task.timeout_seconds * 1_000_000_000) as u128,
                        },
                        resource_group: optional_text(task.resource_group),
                        depends_on: needed,
                    },
                ),
            },
        },
    }
}

} // verus!
