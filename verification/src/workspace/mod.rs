//! Workspaces of several packages, and projects of one.
use vstd::prelude::*;

use crate::config::{PipelineConfig, TaskConfig};
use crate::map::{keys, lookup, TextMap};
use crate::path::is_below;
use crate::project::graph::{lemma_chain_bound, Tasks};
use crate::project::name_view;
use crate::project::planned::declared_cwd;
use crate::project::suggest::{closest, closest_name};
use crate::project::validate::{Directories, Resolution};
use crate::text::{
    copy_optional, copy_texts, lemma_text_lt_irreflexive, lemma_text_lt_total, precedes, same,
    split_once, split_once_text, text_lt, texts,
};
use crate::time::Duration;
use crate::workspace::error::{nodes, Node, TaskNode, WorkspaceError, WorkspaceFault};
use crate::workspace::graph::{
    cycle_path, dependencies, depth_limit, is_chain, is_closed, is_waiting_chain, lemma_chain_push,
    lemma_mentioned_is_closed, lemma_push_waiting, lemma_refs_error_stays,
    lemma_visited_error_stays, mentioned, resolved_refs, task_of, tasks_of, unknown_package,
    visited, visited_all, workspace_name, PackageView, Scope,
};
use crate::workspace::planned::{
    package_of, plan_view, planned_task, PlannedTask, PlannedTaskView,
};
use crate::workspace::validate::{resolve_directory, resolve_task_ref};

pub mod error;
pub mod graph;
pub mod load;
pub mod planned;
pub mod promises;
pub mod root;
pub mod rules;
pub mod validate;

verus! {

/// The package that the tasks of the workspace itself belong to.
pub const WORKSPACE_PACKAGE_NAME: &'static str = "workspace";

/// A validated package of a workspace.
#[derive(Debug, Clone)]
pub struct Package {
    pub name: String,
    pub path: String,
    pub tasks: TextMap<TaskConfig>,
}

impl View for Package {
    type V = PackageView;

    open spec fn view(&self) -> PackageView {
        PackageView { name: self.name@, path: self.path@, tasks: self.tasks@ }
    }
}

/// Packages by name.
pub type Packages = Seq<(Seq<char>, PackageView)>;

/// What some packages hold.
pub open spec fn package_entries(entries: Seq<(Seq<char>, Package)>) -> Packages {
    entries.map_values(|e: (Seq<char>, Package)| (e.0, e.1@))
}

pub proof fn lemma_package_lookup(entries: Seq<(Seq<char>, Package)>, key: Seq<char>)
    ensures
        lookup(package_entries(entries), key) == (match lookup(entries, key) {
            Some(package) => Some(package@),
            None => None,
        }),
        keys(package_entries(entries)) == keys(entries),
    decreases entries.len(),
{
    assert(keys(package_entries(entries)) =~= keys(entries));
    if entries.len() > 0 {
        assert(package_entries(entries).drop_first() =~= package_entries(entries.drop_first()));
        lemma_package_lookup(entries.drop_first(), key);
    }
}

/// Whether the manifest at the root describes several packages or one.
#[derive(Debug, Clone, Copy, PartialEq, Eq, Structural)]
pub enum ScopeKind {
    Workspace,
    Standalone,
}

/// A complete, validated execution scope.
#[derive(Debug, Clone)]
pub struct Workspace {
    pub root: String,
    pub name: String,
    pub default_pipeline: String,
    pub pipelines: TextMap<PipelineConfig>,
    pub workspace_tasks: TextMap<TaskConfig>,
    pub packages: TextMap<Package>,
    pub kind: ScopeKind,
}

impl View for Workspace {
    type V = Scope;

    open spec fn view(&self) -> Scope {
        Scope {
            root: self.root@,
            name: self.name@,
            default_pipeline: self.default_pipeline@,
            pipelines: self.pipelines@,
            workspace_tasks: self.workspace_tasks@,
            packages: package_entries(self.packages@),
            standalone: self.kind == ScopeKind::Standalone,
        }
    }
}

// ---------------------------------------------------------------------------
// Plans
// ---------------------------------------------------------------------------
/// Whether one task stands before another: by package, and by name within one.
pub open spec fn node_lt(a: Node, b: Node) -> bool {
    text_lt(a.0, b.0) || a.0 == b.0 && text_lt(a.1, b.1)
}

/// `set` with `node` at its place in the order, once.
pub open spec fn with_node(set: Seq<Node>, node: Node) -> Seq<Node>
    decreases set.len(),
{
    if set.len() == 0 {
        seq![node]
    } else if set[0] == node {
        set
    } else if node_lt(node, set[0]) {
        seq![node] + set
    } else {
        seq![set[0]] + with_node(set.drop_first(), node)
    }
}

/// `set` with the task of that name in each of some packages.
pub open spec fn with_packages(set: Seq<Node>, packages: Seq<Seq<char>>, task: Seq<char>) -> Seq<
    Node,
>
    decreases packages.len(),
{
    if packages.len() == 0 {
        set
    } else {
        with_node(with_packages(set, packages.drop_last(), task), (packages.last(), task))
    }
}

/// The tasks that some requested names stand for, each once, in order: a
/// qualified name is one task, any other one task of each selected package.
pub open spec fn root_set(
    selected: Option<Seq<char>>,
    packages: Seq<Seq<char>>,
    names: Seq<Seq<char>>,
) -> Result<Seq<Node>, WorkspaceFault>
    decreases names.len(),
{
    if names.len() == 0 {
        Ok(seq![])
    } else {
        match root_set(selected, packages, names.drop_last()) {
            Err(fault) => Err(fault),
            Ok(set) => match split_once(names.last(), ":"@) {
                Some((package, task)) => if selected is Some && package != selected->0 {
                    Err(
                        WorkspaceFault::TaskOutsideSelectedPackage {
                            package,
                            selected: selected->0,
                        },
                    )
                } else {
                    Ok(with_node(set, (package, task)))
                },
                None => Ok(with_packages(set, packages, names.last())),
            },
        }
    }
}

proof fn lemma_root_error_stays(
    selected: Option<Seq<char>>,
    packages: Seq<Seq<char>>,
    names: Seq<Seq<char>>,
    k: int,
)
    requires
        0 <= k <= names.len(),
        root_set(selected, packages, names.take(k)) is Err,
    ensures
        root_set(selected, packages, names) == root_set(selected, packages, names.take(k)),
    decreases names.len() - k,
{
    if k < names.len() {
        assert(names.take(k + 1).drop_last() =~= names.take(k));
        lemma_root_error_stays(selected, packages, names, k + 1);
    } else {
        assert(names.take(k) =~= names);
    }
}

/// The fault for a pipeline that does not exist.
pub open spec fn unknown_pipeline(
    pipelines: Seq<(Seq<char>, PipelineConfig)>,
    name: Seq<char>,
) -> WorkspaceFault {
    WorkspaceFault::UnknownPipeline { name, suggestion: closest(name, keys(pipelines)) }
}

/// The names that a plan starts from: the requested ones, or those of the
/// pipeline.
pub open spec fn requested_names(
    scope: Scope,
    pipeline: Option<Seq<char>>,
    requested: Seq<Seq<char>>,
) -> Result<Seq<Seq<char>>, WorkspaceFault> {
    let name = match pipeline {
        Some(name) => name,
        None => scope.default_pipeline,
    };
    let names = if requested.len() > 0 {
        Ok(requested)
    } else {
        match lookup(scope.pipelines, name) {
            None => Err(unknown_pipeline(scope.pipelines, name)),
            Some(config) => Ok(texts(config.tasks@)),
        }
    };
    match names {
        Err(fault) => Err(fault),
        Ok(list) => if list.len() == 0 {
            Err(
                WorkspaceFault::InvalidWorkspace {
                    message: "the selected pipeline has no tasks"@,
                },
            )
        } else {
            Ok(list)
        },
    }
}

/// The packages that a plan is for.
pub open spec fn selected_packages(scope: Scope, selected: Option<Seq<char>>) -> Result<
    Seq<Seq<char>>,
    WorkspaceFault,
> {
    match selected {
        None => Ok(keys(scope.packages)),
        Some(name) => if lookup(scope.packages, name) is Some {
            Ok(seq![name])
        } else {
            Err(unknown_package(scope, name))
        },
    }
}

/// The tasks that are planned, in order.
pub open spec fn planned_nodes(
    scope: Scope,
    selected: Option<Seq<char>>,
    pipeline: Option<Seq<char>>,
    requested: Seq<Seq<char>>,
) -> Result<Seq<Node>, WorkspaceFault> {
    match requested_names(scope, pipeline, requested) {
        Err(fault) => Err(fault),
        Ok(names) => match selected_packages(scope, selected) {
            Err(fault) => Err(fault),
            Ok(packages) => match root_set(selected, packages, names) {
                Err(fault) => Err(fault),
                Ok(roots) => visited_all(scope, roots, seq![], seq![], depth_limit(scope)),
            },
        },
    }
}

/// Some tasks as they will run.
pub open spec fn planned_tasks(
    scope: Scope,
    directories: Seq<(Seq<char>, Resolution)>,
    order: Seq<Node>,
) -> Result<Seq<PlannedTaskView>, WorkspaceFault>
    decreases order.len(),
{
    if order.len() == 0 {
        Ok(seq![])
    } else {
        match planned_tasks(scope, directories, order.drop_last()) {
            Err(fault) => Err(fault),
            Ok(earlier) => match planned_task(scope, directories, order.last()) {
                Err(fault) => Err(fault),
                Ok(task) => Ok(earlier.push(task)),
            },
        }
    }
}

proof fn lemma_planned_error_stays(
    scope: Scope,
    directories: Seq<(Seq<char>, Resolution)>,
    order: Seq<Node>,
    k: int,
)
    requires
        0 <= k <= order.len(),
        planned_tasks(scope, directories, order.take(k)) is Err,
    ensures
        planned_tasks(scope, directories, order) == planned_tasks(
            scope,
            directories,
            order.take(k),
        ),
    decreases order.len() - k,
{
    if k < order.len() {
        assert(order.take(k + 1).drop_last() =~= order.take(k));
        lemma_planned_error_stays(scope, directories, order, k + 1);
    } else {
        assert(order.take(k) =~= order);
    }
}

/// The plan for a selection of packages and a pipeline, or some tasks.
pub open spec fn plan_of(
    scope: Scope,
    directories: Seq<(Seq<char>, Resolution)>,
    selected: Option<Seq<char>>,
    pipeline: Option<Seq<char>>,
    requested: Seq<Seq<char>>,
) -> Result<Seq<PlannedTaskView>, WorkspaceFault> {
    match planned_nodes(scope, selected, pipeline, requested) {
        Err(fault) => Err(fault),
        Ok(order) => planned_tasks(scope, directories, order),
    }
}

/// Whether every task of a list can be run at all.
pub open spec fn tasks_runnable(tasks: Tasks) -> bool {
    forall|i: int|
        0 <= i < tasks.len() ==> (#[trigger] tasks[i]).1.command@.len() > 0
            && tasks[i].1.timeout_seconds > 0
}

/// Whether every task can be run at all, and every package lies below the root.
pub open spec fn is_runnable(scope: Scope) -> bool {
    &&& crate::path::is_absolute(scope.root)
    &&& tasks_runnable(scope.workspace_tasks)
    &&& forall|i: int|
        0 <= i < scope.packages.len() ==> is_below((#[trigger] scope.packages[i]).1.path, scope.root)
            && tasks_runnable(scope.packages[i].1.tasks)
}

proof fn lemma_with_node_at(set: Seq<Node>, node: Node, at: int)
    requires
        0 <= at <= set.len(),
        forall|j: int| 0 <= j < at ==> node_lt(#[trigger] set[j], node),
        at < set.len() ==> !node_lt(set[at], node),
    ensures
        with_node(set, node) == if at < set.len() && set[at] == node {
            set
        } else {
            set.take(at) + seq![node] + set.skip(at)
        },
    decreases set.len(),
{
    if set.len() == 0 {
        assert(set.take(at) + seq![node] + set.skip(at) =~= seq![node]);
    } else if at == 0 {
        lemma_text_lt_total(set[0].0, node.0);
        lemma_text_lt_total(set[0].1, node.1);
        if set[0] != node {
            assert(set.take(0) + seq![node] + set.skip(0) =~= seq![node] + set);
        }
    } else {
        assert(node_lt(set[0], node));
        lemma_text_lt_irreflexive(node.0);
        lemma_text_lt_irreflexive(node.1);
        lemma_node_lt_asymmetric(set[0], node);
        let rest = set.drop_first();
        assert forall|j: int| 0 <= j < at - 1 implies node_lt(#[trigger] rest[j], node) by {
            assert(rest[j] == set[j + 1]);
        }
        lemma_with_node_at(rest, node, at - 1);
        if at < set.len() && set[at] == node {
            assert(seq![set[0]] + rest =~= set);
        } else {
            assert(seq![set[0]] + (rest.take(at - 1) + seq![node] + rest.skip(at - 1)) =~= set.take(
                at,
            ) + seq![node] + set.skip(at));
        }
    }
}

proof fn lemma_node_lt_asymmetric(a: Node, b: Node)
    requires
        node_lt(a, b),
    ensures
        !node_lt(b, a),
        a != b,
{
    lemma_text_lt_irreflexive(a.0);
    lemma_text_lt_irreflexive(a.1);
    if text_lt(b.0, a.0) && text_lt(a.0, b.0) {
        crate::text::lemma_text_lt_transitive(a.0, b.0, a.0);
    }
    if text_lt(b.1, a.1) && text_lt(a.1, b.1) {
        crate::text::lemma_text_lt_transitive(a.1, b.1, a.1);
    }
}

fn node_precedes(a: &TaskNode, b: &TaskNode) -> (r: bool)
    ensures
        r == node_lt(a@, b@),
{
    if precedes(a.package.as_str(), b.package.as_str()) {
        return true;
    }
    same(a.package.as_str(), b.package.as_str()) && precedes(a.task.as_str(), b.task.as_str())
}

fn same_node(a: &TaskNode, b: &TaskNode) -> (r: bool)
    ensures
        r == (a@ == b@),
{
    same(a.package.as_str(), b.package.as_str()) && same(a.task.as_str(), b.task.as_str())
}

fn add_node(set: &mut Vec<TaskNode>, node: TaskNode)
    ensures
        nodes(final(set)@) == with_node(nodes(old(set)@), node@),
{
    let ghost before = nodes(set@);
    let mut at: usize = 0;
    while at < set.len() && node_precedes(&set[at], &node)
        invariant
            at <= set@.len(),
            before == nodes(set@),
            forall|j: int| 0 <= j < at ==> node_lt(#[trigger] before[j], node@),
        decreases set.len() - at,
    {
        at += 1;
    }
    proof {
        lemma_with_node_at(before, node@, at as int);
    }
    if at < set.len() && same_node(&set[at], &node) {
        return;
    }
    let ghost held = node@;
    set.insert(at, node);
    assert(nodes(set@) =~= before.take(at as int) + seq![held] + before.skip(at as int));
}

fn position_of(list: &Vec<TaskNode>, node: &TaskNode) -> (r: Option<usize>)
    ensures
        match r {
            Some(i) => i < list@.len() && nodes(list@)[i as int] == node@ && forall|j: int|
                0 <= j < i ==> #[trigger] nodes(list@)[j] != node@,
            None => !nodes(list@).contains(node@),
        },
{
    let mut i: usize = 0;
    while i < list.len()
        invariant
            i <= list@.len(),
            forall|j: int| 0 <= j < i ==> #[trigger] nodes(list@)[j] != node@,
        decreases list.len() - i,
    {
        if same_node(&list[i], node) {
            assert(nodes(list@)[i as int] == node@);
            return Some(i);
        }
        i += 1;
    }
    None
}

proof fn lemma_cycle_path_from(stack: Seq<Node>, node: Node, start: int)
    requires
        0 <= start < stack.len(),
        stack[start] == node,
        forall|j: int| 0 <= j < start ==> #[trigger] stack[j] != node,
    ensures
        cycle_path(stack, node) == stack.skip(start).push(node),
    decreases start,
{
    if start == 0 {
        assert(stack.skip(0) =~= stack);
    } else {
        let rest = stack.drop_first();
        assert forall|j: int| 0 <= j < start - 1 implies #[trigger] rest[j] != node by {
            assert(rest[j] == stack[j + 1]);
        }
        lemma_cycle_path_from(rest, node, start - 1);
        assert(rest.skip(start - 1) =~= stack.skip(start));
    }
}

fn cycle_from(stack: &Vec<TaskNode>, start: usize, node: &TaskNode) -> (r: Vec<TaskNode>)
    requires
        start < stack@.len(),
        nodes(stack@)[start as int] == node@,
        forall|j: int| 0 <= j < start ==> #[trigger] nodes(stack@)[j] != node@,
    ensures
        nodes(r@) == cycle_path(nodes(stack@), node@),
{
    let ghost all = nodes(stack@);
    let mut path: Vec<TaskNode> = Vec::new();
    let mut i: usize = start;
    assert(nodes(path@) =~= all.subrange(start as int, i as int));
    while i < stack.len()
        invariant
            start <= i <= stack@.len(),
            all == nodes(stack@),
            nodes(path@) == all.subrange(start as int, i as int),
        decreases stack.len() - i,
    {
        let ghost before = nodes(path@);
        path.push(stack[i].copy());
        assert(nodes(path@) =~= before.push(all[i as int]));
        i += 1;
        assert(nodes(path@) =~= all.subrange(start as int, i as int));
    }
    let ghost before = nodes(path@);
    path.push(node.copy());
    assert(nodes(path@) =~= before.push(node@));
    proof {
        lemma_cycle_path_from(all, node@, start as int);
        assert(all.subrange(start as int, i as int) =~= all.skip(start as int));
    }
    path
}

pub(crate) fn unknown_pipeline_error(pipelines: &TextMap<PipelineConfig>, name: &str) -> (r: WorkspaceError)
    ensures
        r@ == unknown_pipeline(pipelines@, name@),
{
    WorkspaceError::UnknownPipeline {
        name: name.to_owned(),
        suggestion: closest_name(name, &pipelines.keys()),
    }
}

impl Workspace {
    /// The user-facing kind of this execution scope.
    pub fn scope_label(&self) -> (r: &'static str)
        ensures
            r@ == if self@.standalone {
                "project"@
            } else {
                "monorepo"@
            },
    {
        match self.kind {
            ScopeKind::Standalone => "project",
            ScopeKind::Workspace => "monorepo",
        }
    }

    fn unknown_package(&self, name: &str) -> (r: WorkspaceError)
        ensures
            r@ == unknown_package(self@, name@),
    {
        proof {
            lemma_package_lookup(self.packages@, name@);
        }
        WorkspaceError::UnknownPackage {
            name: name.to_owned(),
            suggestion: closest_name(name, &self.packages.keys()),
        }
    }

    fn tasks_of(&self, package: &str) -> (r: Result<&TextMap<TaskConfig>, WorkspaceError>)
        ensures
            match r {
                Ok(tasks) => tasks_of(self@, package@) == Ok::<Tasks, WorkspaceFault>(tasks@),
                Err(e) => tasks_of(self@, package@) == Err::<Tasks, WorkspaceFault>(e@),
            },
    {
        if same(package, WORKSPACE_PACKAGE_NAME) {
            return Ok(&self.workspace_tasks);
        }
        proof {
            lemma_package_lookup(self.packages@, package@);
        }
        match self.packages.get(package) {
            Some(found) => Ok(&found.tasks),
            None => Err(self.unknown_package(package)),
        }
    }

    /// The configuration that a task runs.
    fn task_config(&self, node: &TaskNode) -> (r: Result<&TaskConfig, WorkspaceError>)
        ensures
            match r {
                Ok(task) => task_of(self@, node@) == Ok::<TaskConfig, WorkspaceFault>(*task),
                Err(e) => task_of(self@, node@) == Err::<TaskConfig, WorkspaceFault>(e@),
            },
    {
        let tasks = match self.tasks_of(node.package.as_str()) {
            Ok(tasks) => tasks,
            Err(e) => {
                return Err(e);
            },
        };
        match tasks.get(node.task.as_str()) {
            Some(task) => Ok(task),
            None => Err(
                WorkspaceError::MissingTask {
                    package: node.package.clone(),
                    task: node.task.clone(),
                    suggestion: closest_name(node.task.as_str(), &tasks.keys()),
                },
            ),
        }
    }

    /// The tasks that must be done before `node` runs.
    fn dependencies(&self, node: &TaskNode) -> (r: Result<Vec<TaskNode>, WorkspaceError>)
        ensures
            match r {
                Ok(needed) => dependencies(self@, node@) == Ok::<Seq<Node>, WorkspaceFault>(
                    nodes(needed@),
                ),
                Err(e) => dependencies(self@, node@) == Err::<Seq<Node>, WorkspaceFault>(e@),
            },
    {
        match self.task_config(node) {
            Err(e) => Err(e),
            Ok(task) => resolve_task_refs(node, &task.depends_on),
        }
    }

    /// Extend `order` by `node` and whatever it needs first.
    fn visit_task(
        &self,
        node: &TaskNode,
        stack: &mut Vec<TaskNode>,
        order: &mut Vec<TaskNode>,
        Ghost(universe): Ghost<Seq<Node>>,
    ) -> (r: Result<(), WorkspaceError>)
        requires
            is_closed(self@, universe),
            universe.contains(node@),
            is_waiting_chain(self@, universe, nodes(old(stack)@)),
            is_chain(self@, nodes(old(stack)@).push(node@)),
        ensures
            ({
                let limit = (universe.len() + 1 - old(stack)@.len()) as nat;
                let outcome = visited(
                    self@,
                    node@,
                    nodes(old(order)@),
                    nodes(old(stack)@),
                    limit,
                );
                match r {
                    Ok(_) => outcome == Ok::<Seq<Node>, WorkspaceFault>(nodes(final(order)@))
                        && nodes(final(stack)@) == nodes(old(stack)@),
                    Err(e) => outcome == Err::<Seq<Node>, WorkspaceFault>(e@),
                }
            }),
        decreases universe.len() + 1 - old(stack)@.len(),
    {
        let ghost scope = self@;
        let ghost done = nodes(order@);
        let ghost waiting = nodes(stack@);
        let ghost limit = (universe.len() + 1 - stack@.len()) as nat;
        proof {
            lemma_chain_bound(waiting, universe);
        }
        if position_of(order, node).is_some() {
            return Ok(());
        }
        if let Some(start) = position_of(stack, node) {
            return Err(WorkspaceError::TaskCycle { path: cycle_from(stack, start, node) });
        }
        let needed = match self.dependencies(node) {
            Ok(needed) => needed,
            Err(e) => {
                return Err(e);
            },
        };
        let ghost ids = nodes(needed@);
        stack.push(node.copy());
        let ghost longer = waiting.push(node@);
        assert(nodes(stack@) =~= longer);
        proof {
            lemma_push_waiting(scope, universe, waiting, node@);
            lemma_chain_bound(longer, universe);
        }
        let mut i: usize = 0;
        assert(ids.take(0) =~= seq![]);
        while i < needed.len()
            invariant
                i <= needed@.len(),
                scope == self@,
                ids == nodes(needed@),
                nodes(stack@) == longer,
                longer == waiting.push(node@),
                is_closed(scope, universe),
                is_waiting_chain(scope, universe, longer),
                longer.len() <= universe.len(),
                waiting == nodes(old(stack)@),
                done == nodes(old(order)@),
                limit == universe.len() + 1 - waiting.len(),
                dependencies(scope, node@) == Ok::<Seq<Node>, WorkspaceFault>(ids),
                !done.contains(node@),
                !waiting.contains(node@),
                visited(scope, node@, done, waiting, limit) == (match visited_all(
                    scope,
                    ids,
                    done,
                    longer,
                    (limit - 1) as nat,
                ) {
                    Err(fault) => Err(fault),
                    Ok(all) => Ok(all.push(node@)),
                }),
                visited_all(scope, ids.take(i as int), done, longer, (limit - 1) as nat) == Ok::<
                    Seq<Node>,
                    WorkspaceFault,
                >(nodes(order@)),
            decreases needed.len() - i,
        {
            assert(ids.take(i as int + 1).drop_last() =~= ids.take(i as int));
            assert(ids.take(i as int + 1).last() == needed@[i as int]@);
            proof {
                assert(ids[i as int] == needed@[i as int]@);
                assert(ids.contains(needed@[i as int]@));
                assert(universe.contains(needed@[i as int]@));
                assert(longer.last() == node@);
                lemma_chain_push(scope, longer, needed@[i as int]@);
            }
            assert(stack@.len() == longer.len());
            if let Err(e) = self.visit_task(&needed[i], stack, order, Ghost(universe)) {
                proof {
                    lemma_visited_error_stays(
                        scope,
                        ids,
                        done,
                        longer,
                        (limit - 1) as nat,
                        i as int + 1,
                    );
                }
                return Err(e);
            }
            i += 1;
        }
        assert(ids.take(i as int) =~= ids);
        assert(stack@.len() == longer.len());
        let ghost full = stack@;
        stack.pop();
        assert(nodes(stack@) =~= waiting) by {
            assert forall|k: int| 0 <= k < waiting.len() implies nodes(stack@)[k]
                == waiting[k] by {
                assert(nodes(full)[k] == longer[k]);
            }
        }
        let ghost before = nodes(order@);
        order.push(node.copy());
        assert(nodes(order@) =~= before.push(node@));
        Ok(())
    }

    /// Each of `roots` with whatever it needs first, in order.
    #[verifier::loop_isolation(false)]
    fn visit_all(&self, roots: &Vec<TaskNode>) -> (r: Result<Vec<TaskNode>, WorkspaceError>)
        ensures
            match r {
                Ok(order) => visited_all(
                    self@,
                    nodes(roots@),
                    seq![],
                    seq![],
                    depth_limit(self@),
                ) == Ok::<Seq<Node>, WorkspaceFault>(nodes(order@)),
                Err(e) => visited_all(
                    self@,
                    nodes(roots@),
                    seq![],
                    seq![],
                    depth_limit(self@),
                ) == Err::<Seq<Node>, WorkspaceFault>(e@),
            },
    {
        let ghost ids = nodes(roots@);
        let ghost limit = depth_limit(self@);
        let mut order: Vec<TaskNode> = Vec::new();
        let mut stack: Vec<TaskNode> = Vec::new();
        let mut i: usize = 0;
        assert(ids.take(0) =~= seq![]);
        assert(nodes(stack@) =~= seq![]);
        assert(nodes(order@) =~= seq![]);
        while i < roots.len()
            invariant
                i <= roots@.len(),
                nodes(stack@) == Seq::<Node>::empty(),
                visited_all(self@, ids.take(i as int), seq![], seq![], limit) == Ok::<
                    Seq<Node>,
                    WorkspaceFault,
                >(nodes(order@)),
            decreases roots.len() - i,
        {
            assert(ids.take(i as int + 1).drop_last() =~= ids.take(i as int));
            assert(ids.take(i as int + 1).last() == roots@[i as int]@);
            let ghost universe = mentioned(self@).push(roots@[i as int]@);
            proof {
                assert(universe[universe.len() - 1] == roots@[i as int]@);
                lemma_mentioned_is_closed(self@, roots@[i as int]@);
            }
            if let Err(e) = self.visit_task(&roots[i], &mut stack, &mut order, Ghost(universe)) {
                proof {
                    lemma_visited_error_stays(self@, ids, seq![], seq![], limit, i as int + 1);
                }
                return Err(e);
            }
            i += 1;
        }
        assert(ids.take(i as int) =~= ids);
        Ok(order)
    }

    /// The packages that a plan is for.
    fn selected_packages(&self, selected_package: Option<&str>) -> (r: Result<
        Vec<String>,
        WorkspaceError,
    >)
        ensures
            match r {
                Ok(names) => selected_packages(self@, name_view(selected_package)) == Ok::<
                    Seq<Seq<char>>,
                    WorkspaceFault,
                >(texts(names@)),
                Err(e) => selected_packages(self@, name_view(selected_package)) == Err::<
                    Seq<Seq<char>>,
                    WorkspaceFault,
                >(e@),
            },
    {
        match selected_package {
            None => {
                proof {
                    lemma_package_lookup(self.packages@, seq![]);
                }
                Ok(self.packages.keys())
            },
            Some(name) => {
                proof {
                    lemma_package_lookup(self.packages@, name@);
                }
                if !self.packages.contains_key(name) {
                    return Err(self.unknown_package(name));
                }
                let mut names: Vec<String> = Vec::new();
                names.push(name.to_owned());
                assert(texts(names@) =~= seq![name@]);
                Ok(names)
            },
        }
    }

    /// The names that a plan starts from.
    fn requested_names(&self, pipeline: Option<&str>, requested_tasks: &Vec<String>) -> (r: Result<
        Vec<String>,
        WorkspaceError,
    >)
        ensures
            match r {
                Ok(names) => requested_names(self@, name_view(pipeline), texts(requested_tasks@))
                    == Ok::<Seq<Seq<char>>, WorkspaceFault>(texts(names@)),
                Err(e) => requested_names(self@, name_view(pipeline), texts(requested_tasks@))
                    == Err::<Seq<Seq<char>>, WorkspaceFault>(e@),
            },
    {
        let names: Vec<String> = if requested_tasks.len() == 0 {
            let name: &str = match pipeline {
                Some(name) => name,
                None => self.default_pipeline.as_str(),
            };
            match self.pipelines.get(name) {
                None => {
                    return Err(unknown_pipeline_error(&self.pipelines, name));
                },
                Some(config) => copy_texts(&config.tasks),
            }
        } else {
            copy_texts(requested_tasks)
        };
        if names.len() == 0 {
            return Err(
                WorkspaceError::InvalidWorkspace {
                    message: "the selected pipeline has no tasks".to_owned(),
                },
            );
        }
        Ok(names)
    }

    /// The tasks that are planned, in order.
    fn plan_nodes(
        &self,
        selected_package: Option<&str>,
        pipeline: Option<&str>,
        requested_tasks: &Vec<String>,
    ) -> (r: Result<Vec<TaskNode>, WorkspaceError>)
        ensures
            match r {
                Ok(order) => planned_nodes(
                    self@,
                    name_view(selected_package),
                    name_view(pipeline),
                    texts(requested_tasks@),
                ) == Ok::<Seq<Node>, WorkspaceFault>(nodes(order@)),
                Err(e) => planned_nodes(
                    self@,
                    name_view(selected_package),
                    name_view(pipeline),
                    texts(requested_tasks@),
                ) == Err::<Seq<Node>, WorkspaceFault>(e@),
            },
    {
        let names = match self.requested_names(pipeline, requested_tasks) {
            Ok(names) => names,
            Err(e) => {
                return Err(e);
            },
        };
        let packages = match self.selected_packages(selected_package) {
            Ok(packages) => packages,
            Err(e) => {
                return Err(e);
            },
        };
        let roots = match root_nodes(selected_package, &packages, &names) {
            Ok(roots) => roots,
            Err(e) => {
                return Err(e);
            },
        };
        self.visit_all(&roots)
    }

    /// The task `node` as it will run.
    fn planned_task(&self, directories: &Directories, node: &TaskNode) -> (r: Result<
        PlannedTask,
        WorkspaceError,
    >)
        ensures
            match r {
                Ok(task) => planned_task(self@, directories.resolved@, node@) == Ok::<
                    PlannedTaskView,
                    WorkspaceFault,
                >(task@),
                Err(e) => planned_task(self@, directories.resolved@, node@) == Err::<
                    PlannedTaskView,
                    WorkspaceFault,
                >(e@),
            },
    {
        let task = match self.task_config(node) {
            Ok(task) => task,
            Err(e) => {
                return Err(e);
            },
        };
        let mut package_name: &str = WORKSPACE_PACKAGE_NAME;
        let mut package_path: &str = self.root.as_str();
        if !same(node.package.as_str(), WORKSPACE_PACKAGE_NAME) {
            proof {
                lemma_package_lookup(self.packages@, node.package@);
            }
            match self.packages.get(node.package.as_str()) {
                Some(package) => {
                    package_name = package.name.as_str();
                    package_path = package.path.as_str();
                },
                None => {
                    return Err(self.unknown_package(node.package.as_str()));
                },
            }
        }
        assert((package_name@, package_path@) == package_of(self@, node.package@));
        let cwd: &str = match &task.cwd {
            Some(cwd) => cwd.as_str(),
            None => ".",
        };
        assert(cwd@ == declared_cwd(*task));
        let directory = match resolve_directory(
            directories,
            package_path,
            package_name,
            node.task.as_str(),
            cwd,
        ) {
            Ok(directory) => directory,
            Err(e) => {
                return Err(e);
            },
        };
        let depends_on = match resolve_task_refs(node, &task.depends_on) {
            Ok(depends_on) => depends_on,
            Err(e) => {
                return Err(e);
            },
        };
        Ok(
            PlannedTask {
                package: package_name.to_owned(),
                package_path: package_path.to_owned(),
                task: node.task.clone(),
                command: copy_texts(&task.command),
                cwd: directory,
                env: task.env.copy(),
                cache: task.cache,
                inputs: copy_texts(&task.inputs),
                outputs: copy_texts(&task.outputs),
                cache_env: copy_texts(&task.cache_env),
                timeout: Duration::from_secs(task.timeout_seconds),
                resource_group: copy_optional(&task.resource_group),
                depends_on,
            },
        )
    }

    /// Produce a dependency-first task plan.
    ///
    /// When `requested_tasks` is empty, the selected pipeline is used. An
    /// unqualified task in a pipeline runs for every selected package. A
    /// qualified task such as `docs:generate` is a single explicit root node.
    #[verifier::loop_isolation(false)]
    pub fn plan(
        &self,
        directories: &Directories,
        selected_package: Option<&str>,
        pipeline: Option<&str>,
        requested_tasks: &Vec<String>,
    ) -> (r: Result<Vec<PlannedTask>, WorkspaceError>)
        requires
            is_runnable(self@),
        ensures
            match r {
                Ok(plan) => plan_of(
                    self@,
                    directories.resolved@,
                    name_view(selected_package),
                    name_view(pipeline),
                    texts(requested_tasks@),
                ) == Ok::<Seq<PlannedTaskView>, WorkspaceFault>(plan_view(plan@)),
                Err(e) => plan_of(
                    self@,
                    directories.resolved@,
                    name_view(selected_package),
                    name_view(pipeline),
                    texts(requested_tasks@),
                ) == Err::<Seq<PlannedTaskView>, WorkspaceFault>(e@),
            },
    {
        let order = match self.plan_nodes(selected_package, pipeline, requested_tasks) {
            Ok(order) => order,
            Err(e) => {
                return Err(e);
            },
        };
        let ghost all = nodes(order@);
        let mut plan: Vec<PlannedTask> = Vec::new();
        let mut i: usize = 0;
        assert(all.take(0) =~= seq![]);
        assert(plan_view(plan@) =~= seq![]);
        while i < order.len()
            invariant
                i <= order@.len(),
                planned_tasks(self@, directories.resolved@, all.take(i as int)) == Ok::<
                    Seq<PlannedTaskView>,
                    WorkspaceFault,
                >(plan_view(plan@)),
            decreases order.len() - i,
        {
            assert(all.take(i as int + 1).drop_last() =~= all.take(i as int));
            assert(all.take(i as int + 1).last() == order@[i as int]@);
            match self.planned_task(directories, &order[i]) {
                Err(e) => {
                    proof {
                        lemma_planned_error_stays(
                            self@,
                            directories.resolved@,
                            all,
                            i as int + 1,
                        );
                    }
                    return Err(e);
                },
                Ok(task) => {
                    let ghost before = plan_view(plan@);
                    plan.push(task);
                    assert(plan_view(plan@) =~= before.push(task@));
                },
            }
            i += 1;
        }
        assert(all.take(i as int) =~= all);
        Ok(plan)
    }

    /// The edges of the plan for the same selection.
    #[verifier::loop_isolation(false)]
    pub fn graph(
        &self,
        directories: &Directories,
        selected_package: Option<&str>,
        pipeline: Option<&str>,
        requested_tasks: &Vec<String>,
    ) -> (r: Result<Vec<(TaskNode, Vec<TaskNode>)>, WorkspaceError>)
        requires
            is_runnable(self@),
        ensures
            match plan_of(
                self@,
                directories.resolved@,
                name_view(selected_package),
                name_view(pipeline),
                texts(requested_tasks@),
            ) {
                Ok(plan) => r matches Ok(edges) && edge_view(edges@) == edges_of(plan),
                Err(fault) => r matches Err(e) && e@ == fault,
            },
    {
        let plan = match self.plan(directories, selected_package, pipeline, requested_tasks) {
            Ok(plan) => plan,
            Err(e) => {
                return Err(e);
            },
        };
        let ghost want = edges_of(plan_view(plan@));
        let mut edges: Vec<(TaskNode, Vec<TaskNode>)> = Vec::new();
        let mut i: usize = 0;
        assert(edge_view(edges@) =~= want.take(0));
        while i < plan.len()
            invariant
                i <= plan@.len(),
                edge_view(edges@) == want.take(i as int),
            decreases plan.len() - i,
        {
            let ghost before = edge_view(edges@);
            let edge = (plan[i].node(), copy_nodes(&plan[i].depends_on));
            assert(want[i as int] == (edge.0@, nodes(edge.1@)));
            edges.push(edge);
            assert(edge_view(edges@) =~= before.push((edge.0@, nodes(edge.1@))));
            i += 1;
            assert(edge_view(edges@) =~= want.take(i as int));
        }
        assert(want.take(i as int) =~= want);
        Ok(edges)
    }
}

/// The edges of a plan: each task with what it depends on.
pub open spec fn edges_of(plan: Seq<PlannedTaskView>) -> Seq<(Node, Seq<Node>)> {
    plan.map_values(|t: PlannedTaskView| ((t.package, t.task), t.depends_on))
}

/// What some edges say.
pub open spec fn edge_view(edges: Seq<(TaskNode, Vec<TaskNode>)>) -> Seq<(Node, Seq<Node>)> {
    edges.map_values(|e: (TaskNode, Vec<TaskNode>)| (e.0@, nodes(e.1@)))
}

fn copy_nodes(list: &Vec<TaskNode>) -> (r: Vec<TaskNode>)
    ensures
        r@ == list@,
{
    let mut out: Vec<TaskNode> = Vec::new();
    let mut i: usize = 0;
    while i < list.len()
        invariant
            i <= list@.len(),
            out@ == list@.take(i as int),
        decreases list.len() - i,
    {
        out.push(list[i].copy());
        i += 1;
        assert(out@ =~= list@.take(i as int));
    }
    assert(out@ =~= list@);
    out
}

/// The tasks that references stand for, in order.
#[verifier::loop_isolation(false)]
fn resolve_task_refs(current: &TaskNode, references: &Vec<String>) -> (r: Result<
    Vec<TaskNode>,
    WorkspaceError,
>)
    ensures
        match r {
            Ok(found) => resolved_refs(current@, texts(references@)) == Ok::<
                Seq<Node>,
                WorkspaceFault,
            >(nodes(found@)),
            Err(e) => resolved_refs(current@, texts(references@)) == Err::<
                Seq<Node>,
                WorkspaceFault,
            >(e@),
        },
{
    let ghost all = texts(references@);
    let mut resolved: Vec<TaskNode> = Vec::new();
    let mut i: usize = 0;
    assert(all.take(0) =~= seq![]);
    assert(nodes(resolved@) =~= seq![]);
    while i < references.len()
        invariant
            i <= references@.len(),
            resolved_refs(current@, all.take(i as int)) == Ok::<Seq<Node>, WorkspaceFault>(
                nodes(resolved@),
            ),
        decreases references.len() - i,
    {
        assert(all.take(i as int + 1).drop_last() =~= all.take(i as int));
        assert(all.take(i as int + 1).last() == references@[i as int]@);
        match resolve_task_ref(current, references[i].as_str()) {
            Err(e) => {
                proof {
                    lemma_refs_error_stays(current@, all, i as int + 1);
                }
                return Err(e);
            },
            Ok(node) => {
                let ghost before = nodes(resolved@);
                resolved.push(node);
                assert(nodes(resolved@) =~= before.push(node@));
            },
        }
        i += 1;
    }
    assert(all.take(i as int) =~= all);
    Ok(resolved)
}

/// The tasks that some requested names stand for.
#[verifier::loop_isolation(false)]
fn root_nodes(selected_package: Option<&str>, packages: &Vec<String>, names: &Vec<String>) -> (r:
    Result<Vec<TaskNode>, WorkspaceError>)
    ensures
        match r {
            Ok(roots) => root_set(name_view(selected_package), texts(packages@), texts(names@))
                == Ok::<Seq<Node>, WorkspaceFault>(nodes(roots@)),
            Err(e) => root_set(name_view(selected_package), texts(packages@), texts(names@))
                == Err::<Seq<Node>, WorkspaceFault>(e@),
        },
{
    let ghost all = texts(names@);
    let ghost own = texts(packages@);
    let ghost selected = name_view(selected_package);
    let mut roots: Vec<TaskNode> = Vec::new();
    let mut i: usize = 0;
    assert(all.take(0) =~= seq![]);
    assert(nodes(roots@) =~= seq![]);
    while i < names.len()
        invariant
            i <= names@.len(),
            root_set(selected, own, all.take(i as int)) == Ok::<Seq<Node>, WorkspaceFault>(
                nodes(roots@),
            ),
        decreases names.len() - i,
    {
        assert(all.take(i as int + 1).drop_last() =~= all.take(i as int));
        assert(all.take(i as int + 1).last() == names@[i as int]@);
        match split_once_text(names[i].as_str(), ":") {
            Some((package, task)) => {
                if let Some(name) = selected_package {
                    if !same(package.as_str(), name) {
                        let e = WorkspaceError::TaskOutsideSelectedPackage {
                            package,
                            selected: name.to_owned(),
                        };
                        proof {
                            lemma_root_error_stays(selected, own, all, i as int + 1);
                        }
                        return Err(e);
                    }
                }
                add_node(&mut roots, TaskNode { package, task });
            },
            None => {
                let ghost before = nodes(roots@);
                let mut k: usize = 0;
                assert(own.take(0) =~= seq![]);
                while k < packages.len()
                    invariant
                        k <= packages@.len(),
                        nodes(roots@) == with_packages(
                            before,
                            own.take(k as int),
                            names@[i as int]@,
                        ),
                    decreases packages.len() - k,
                {
                    assert(own.take(k as int + 1).drop_last() =~= own.take(k as int));
                    assert(own.take(k as int + 1).last() == packages@[k as int]@);
                    add_node(&mut roots, TaskNode::new(packages[k].as_str(), names[i].as_str()));
                    k += 1;
                }
                assert(own.take(k as int) =~= own);
            },
        }
        i += 1;
    }
    assert(all.take(i as int) =~= all);
    Ok(roots)
}

// ---------------------------------------------------------------------------
// Laws
// ---------------------------------------------------------------------------
/// Whether every task of a list belongs to one package.
pub open spec fn all_of(list: Seq<Node>, package: Seq<char>) -> bool {
    forall|i: int| 0 <= i < list.len() ==> (#[trigger] list[i]).0 == package
}

proof fn lemma_with_node_all_of(set: Seq<Node>, node: Node, package: Seq<char>)
    requires
        all_of(set, package),
        node.0 == package,
    ensures
        all_of(with_node(set, node), package),
    decreases set.len(),
{
    if set.len() > 0 && set[0] != node && !node_lt(node, set[0]) {
        let rest = set.drop_first();
        assert forall|i: int| 0 <= i < rest.len() implies (#[trigger] rest[i]).0 == package by {
            assert(rest[i] == set[i + 1]);
        }
        lemma_with_node_all_of(rest, node, package);
    }
}

/// A plan for one package starts from tasks of that package alone: whatever
/// else it holds is there because one of them depends on it.
pub proof fn law_selection_starts_from_one_package(package: Seq<char>, names: Seq<Seq<char>>)
    requires
        root_set(Some(package), seq![package], names) is Ok,
    ensures
        all_of(root_set(Some(package), seq![package], names)->Ok_0, package),
    decreases names.len(),
{
    if names.len() > 0 {
        law_selection_starts_from_one_package(package, names.drop_last());
        let set = root_set(Some(package), seq![package], names.drop_last())->Ok_0;
        match split_once(names.last(), ":"@) {
            Some(node) => {
                lemma_with_node_all_of(set, node, package);
            },
            None => {
                let one = seq![package];
                assert(one.drop_last() =~= seq![]);
                reveal_with_fuel(with_packages, 2);
                lemma_with_node_all_of(set, (package, names.last()), package);
            },
        }
    }
}

/// A planned task has a command and some time to run it, and runs below its
/// package, which lies below the root.
pub proof fn law_planned_tasks_stay_inside(
    scope: Scope,
    directories: Seq<(Seq<char>, Resolution)>,
    node: Node,
)
    requires
        is_runnable(scope),
        planned_task(scope, directories, node) is Ok,
    ensures
        ({
            let task = planned_task(scope, directories, node)->Ok_0;
            &&& task.command.len() > 0
            &&& task.timeout.nanos > 0
            &&& is_below(task.package_path, scope.root)
            &&& is_below(task.cwd, task.package_path)
        }),
{
    let tasks = tasks_of(scope, node.0)->Ok_0;
    crate::map::lemma_lookup_some(tasks, node.1);
    let k = choose|k: int|
        0 <= k < tasks.len() && #[trigger] tasks[k] == (node.1, lookup(tasks, node.1)->0);
    let own = crate::path::components(scope.root);
    assert(own.subrange(0, own.len() as int) =~= own);
    if node.0 != workspace_name() {
        crate::map::lemma_lookup_some(scope.packages, node.0);
        let i = choose|i: int|
            0 <= i < scope.packages.len() && #[trigger] scope.packages[i] == (
                node.0,
                lookup(scope.packages, node.0)->0,
            );
        assert(scope.packages[i].1.tasks == tasks);
    }
    assert(tasks_runnable(tasks));
    assert(tasks[k].1.command@.len() > 0 && tasks[k].1.timeout_seconds > 0);
    assert(texts(tasks[k].1.command@).len() == tasks[k].1.command@.len());
}

} // verus!
