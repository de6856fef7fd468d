//! The task graph of a workspace: which tasks a task depends on, and in which
//! order tasks are planned.

use vstd::prelude::*;

use crate::config::{PipelineConfig, TaskConfig};
use crate::map::{keys, lemma_lookup_some, lookup};
use crate::project::graph::{lemma_chain_bound, Tasks};
use crate::project::suggest::closest;
use crate::text::{split_once, texts};
use crate::workspace::error::{Node, WorkspaceFault};

verus! {

/// What a `Package` holds.
pub struct PackageView {
    pub name: Seq<char>,
    pub path: Seq<char>,
    pub tasks: Tasks,
}

/// What a `Workspace` holds.
pub struct Scope {
    pub root: Seq<char>,
    pub name: Seq<char>,
    pub default_pipeline: Seq<char>,
    pub pipelines: Seq<(Seq<char>, PipelineConfig)>,
    pub workspace_tasks: Tasks,
    pub packages: Seq<(Seq<char>, PackageView)>,
    pub standalone: bool,
}

/// The package that the tasks of the workspace itself belong to.
pub open spec fn workspace_name() -> Seq<char> {
    "workspace"@
}

/// The fault for a package that does not exist.
pub open spec fn unknown_package(scope: Scope, name: Seq<char>) -> WorkspaceFault {
    WorkspaceFault::UnknownPackage { name, suggestion: closest(name, keys(scope.packages)) }
}

/// The fault for a task that does not exist among `tasks`.
pub open spec fn missing_task(tasks: Tasks, node: Node) -> WorkspaceFault {
    WorkspaceFault::MissingTask {
        package: node.0,
        task: node.1,
        suggestion: closest(node.1, keys(tasks)),
    }
}

/// The tasks of a package, or of the workspace itself.
pub open spec fn tasks_of(scope: Scope, package: Seq<char>) -> Result<Tasks, WorkspaceFault> {
    if package == workspace_name() {
        Ok(scope.workspace_tasks)
    } else {
        match lookup(scope.packages, package) {
            None => Err(unknown_package(scope, package)),
            Some(found) => Ok(found.tasks),
        }
    }
}

/// The configuration that a task runs.
pub open spec fn task_of(scope: Scope, node: Node) -> Result<TaskConfig, WorkspaceFault> {
    match tasks_of(scope, node.0) {
        Err(fault) => Err(fault),
        Ok(tasks) => match lookup(tasks, node.1) {
            None => Err(missing_task(tasks, node)),
            Some(task) => Ok(task),
        },
    }
}

/// The complaint about a task reference.
pub open spec fn reference_problem(reference: Seq<char>) -> Option<Seq<char>> {
    if reference.len() == 0 || reference.contains('\0') {
        Some("task reference must be non-empty and cannot contain NUL"@)
    } else {
        match split_once(reference, ":"@) {
            None => None,
            Some((package, task)) => if package.len() > 0 && task.len() > 0 && !task.contains(
                ':',
            ) {
                None
            } else {
                Some("invalid task reference '"@ + reference + "'"@)
            },
        }
    }
}

/// The task that a reference of `current` stands for: one of the same package,
/// unless the reference names another.
pub open spec fn resolved_ref(current: Node, reference: Seq<char>) -> Result<Node, WorkspaceFault> {
    if reference_problem(reference) is Some {
        Err(WorkspaceFault::InvalidTaskReference { reference, from: current })
    } else {
        match split_once(reference, ":"@) {
            Some(node) => Ok(node),
            None => Ok((current.0, reference)),
        }
    }
}

/// The tasks that the references of `current` stand for, in order.
pub open spec fn resolved_refs(current: Node, references: Seq<Seq<char>>) -> Result<
    Seq<Node>,
    WorkspaceFault,
>
    decreases references.len(),
{
    if references.len() == 0 {
        Ok(seq![])
    } else {
        match resolved_refs(current, references.drop_last()) {
            Err(fault) => Err(fault),
            Ok(earlier) => match resolved_ref(current, references.last()) {
                Err(fault) => Err(fault),
                Ok(last) => Ok(earlier.push(last)),
            },
        }
    }
}

pub proof fn lemma_refs_error_stays(current: Node, references: Seq<Seq<char>>, k: int)
    requires
        0 <= k <= references.len(),
        resolved_refs(current, references.take(k)) is Err,
    ensures
        resolved_refs(current, references) == resolved_refs(current, references.take(k)),
    decreases references.len() - k,
{
    if k < references.len() {
        assert(references.take(k + 1).drop_last() =~= references.take(k));
        lemma_refs_error_stays(current, references, k + 1);
    } else {
        assert(references.take(k) =~= references);
    }
}

/// The tasks that must be done before `node` runs.
pub open spec fn dependencies(scope: Scope, node: Node) -> Result<Seq<Node>, WorkspaceFault> {
    match task_of(scope, node) {
        Err(fault) => Err(fault),
        Ok(task) => resolved_refs(node, texts(task.depends_on@)),
    }
}

// ---------------------------------------------------------------------------
// The graph is finite
// ---------------------------------------------------------------------------
/// Every task that the tasks of a package refer to.
pub open spec fn mentioned_by(package: Seq<char>, tasks: Tasks) -> Seq<Node>
    decreases tasks.len(),
{
    if tasks.len() == 0 {
        seq![]
    } else {
        let (name, task) = tasks.last();
        mentioned_by(package, tasks.drop_last()) + resolved_refs(
            (package, name),
            texts(task.depends_on@),
        )->Ok_0
    }
}

/// Every task that the tasks of some packages refer to.
pub open spec fn mentioned_in(packages: Seq<(Seq<char>, PackageView)>) -> Seq<Node>
    decreases packages.len(),
{
    if packages.len() == 0 {
        seq![]
    } else {
        mentioned_in(packages.drop_last()) + mentioned_by(
            packages.last().0,
            packages.last().1.tasks,
        )
    }
}

/// Every task that some task refers to.
pub open spec fn mentioned(scope: Scope) -> Seq<Node> {
    mentioned_by(workspace_name(), scope.workspace_tasks) + mentioned_in(scope.packages)
}

/// More steps than any chain of distinct dependencies can have.
pub open spec fn depth_limit(scope: Scope) -> nat {
    mentioned(scope).len() + 2
}

proof fn lemma_contains_add<T>(a: Seq<T>, b: Seq<T>, x: T)
    ensures
        a.contains(x) ==> (a + b).contains(x),
        b.contains(x) ==> (a + b).contains(x),
{
    if a.contains(x) {
        let k = choose|k: int| 0 <= k < a.len() && a[k] == x;
        assert((a + b)[k] == x);
    }
    if b.contains(x) {
        let k = choose|k: int| 0 <= k < b.len() && b[k] == x;
        assert((a + b)[a.len() + k] == x);
    }
}

proof fn lemma_mentioned_by(package: Seq<char>, tasks: Tasks, i: int, n: Node)
    requires
        0 <= i < tasks.len(),
        resolved_refs((package, tasks[i].0), texts(tasks[i].1.depends_on@))->Ok_0.contains(n),
    ensures
        mentioned_by(package, tasks).contains(n),
    decreases tasks.len(),
{
    let (name, task) = tasks.last();
    let head = mentioned_by(package, tasks.drop_last());
    let tail = resolved_refs((package, name), texts(task.depends_on@))->Ok_0;
    if i < tasks.len() - 1 {
        assert(tasks.drop_last()[i] == tasks[i]);
        lemma_mentioned_by(package, tasks.drop_last(), i, n);
    }
    lemma_contains_add(head, tail, n);
}

proof fn lemma_mentioned_in(packages: Seq<(Seq<char>, PackageView)>, i: int, n: Node)
    requires
        0 <= i < packages.len(),
        mentioned_by(packages[i].0, packages[i].1.tasks).contains(n),
    ensures
        mentioned_in(packages).contains(n),
    decreases packages.len(),
{
    let head = mentioned_in(packages.drop_last());
    let tail = mentioned_by(packages.last().0, packages.last().1.tasks);
    if i < packages.len() - 1 {
        assert(packages.drop_last()[i] == packages[i]);
        lemma_mentioned_in(packages.drop_last(), i, n);
    }
    lemma_contains_add(head, tail, n);
}

/// Every dependency of every task is mentioned.
pub proof fn lemma_dependencies_mentioned(scope: Scope, node: Node)
    requires
        dependencies(scope, node) is Ok,
    ensures
        forall|n: Node| #[trigger]
            dependencies(scope, node)->Ok_0.contains(n) ==> mentioned(scope).contains(n),
{
    let tasks = tasks_of(scope, node.0)->Ok_0;
    lemma_lookup_some(tasks, node.1);
    let i = choose|i: int|
        0 <= i < tasks.len() && #[trigger] tasks[i] == (node.1, lookup(tasks, node.1)->0);
    let own = mentioned_by(workspace_name(), scope.workspace_tasks);
    let others = mentioned_in(scope.packages);
    assert forall|n: Node| #[trigger] dependencies(scope, node)->Ok_0.contains(n) implies mentioned(
        scope,
    ).contains(n) by {
        assert((node.0, tasks[i].0) == node);
        lemma_mentioned_by(node.0, tasks, i, n);
        if node.0 != workspace_name() {
            lemma_lookup_some(scope.packages, node.0);
            let k = choose|k: int|
                0 <= k < scope.packages.len() && #[trigger] scope.packages[k] == (
                    node.0,
                    lookup(scope.packages, node.0)->0,
                );
            lemma_mentioned_in(scope.packages, k, n);
        }
        lemma_contains_add(own, others, n);
    }
}

// ---------------------------------------------------------------------------
// Depth-first order
// ---------------------------------------------------------------------------
/// The part of `stack` from the first `node` on, and `node` again.
pub open spec fn cycle_path(stack: Seq<Node>, node: Node) -> Seq<Node>
    decreases stack.len(),
{
    if stack.len() == 0 || stack[0] == node {
        stack.push(node)
    } else {
        cycle_path(stack.drop_first(), node)
    }
}

/// The planned order `done`, extended by `node` and whatever it needs first.
///
/// `stack` is the chain of tasks that are waiting for `node`. `limit` bounds
/// the chains that are followed; `depth_limit` is never reached.
pub open spec fn visited(
    scope: Scope,
    node: Node,
    done: Seq<Node>,
    stack: Seq<Node>,
    limit: nat,
) -> Result<Seq<Node>, WorkspaceFault>
    decreases limit, 0nat,
{
    if done.contains(node) {
        Ok(done)
    } else if stack.contains(node) || limit == 0 {
        Err(WorkspaceFault::TaskCycle { path: cycle_path(stack, node) })
    } else {
        match dependencies(scope, node) {
            Err(fault) => Err(fault),
            Ok(needed) => match visited_all(
                scope,
                needed,
                done,
                stack.push(node),
                (limit - 1) as nat,
            ) {
                Err(fault) => Err(fault),
                Ok(order) => Ok(order.push(node)),
            },
        }
    }
}

/// The planned order `done`, extended by each of `nodes` in turn.
pub open spec fn visited_all(
    scope: Scope,
    nodes: Seq<Node>,
    done: Seq<Node>,
    stack: Seq<Node>,
    limit: nat,
) -> Result<Seq<Node>, WorkspaceFault>
    decreases limit, nodes.len() + 1,
{
    if nodes.len() == 0 {
        Ok(done)
    } else {
        match visited_all(scope, nodes.drop_last(), done, stack, limit) {
            Err(fault) => Err(fault),
            Ok(order) => visited(scope, nodes.last(), order, stack, limit),
        }
    }
}

pub proof fn lemma_visited_error_stays(
    scope: Scope,
    nodes: Seq<Node>,
    done: Seq<Node>,
    stack: Seq<Node>,
    limit: nat,
    k: int,
)
    requires
        0 <= k <= nodes.len(),
        visited_all(scope, nodes.take(k), done, stack, limit) is Err,
    ensures
        visited_all(scope, nodes, done, stack, limit) == visited_all(
            scope,
            nodes.take(k),
            done,
            stack,
            limit,
        ),
    decreases nodes.len() - k,
{
    if k < nodes.len() {
        assert(nodes.take(k + 1).drop_last() =~= nodes.take(k));
        lemma_visited_error_stays(scope, nodes, done, stack, limit, k + 1);
    } else {
        assert(nodes.take(k) =~= nodes);
    }
}

// ---------------------------------------------------------------------------
// Laws
// ---------------------------------------------------------------------------
/// Whether `order` lists no task twice, and each task after all it depends on.
pub open spec fn is_plan_order(scope: Scope, order: Seq<Node>) -> bool {
    &&& order.no_duplicates()
    &&& forall|k: int|
        0 <= k < order.len() ==> dependencies(scope, #[trigger] order[k]) is Ok
    &&& forall|k: int, d: Node|
        0 <= k < order.len() && #[trigger] dependencies(scope, order[k])->Ok_0.contains(d)
            ==> order.take(k).contains(d)
}

/// Planning keeps what is planned already, puts every dependency before its
/// dependents, and lists nothing twice.
pub proof fn law_plan_is_dependency_first(
    scope: Scope,
    nodes: Seq<Node>,
    done: Seq<Node>,
    stack: Seq<Node>,
    limit: nat,
)
    requires
        is_plan_order(scope, done),
        visited_all(scope, nodes, done, stack, limit) is Ok,
    ensures
        ({
            let order = visited_all(scope, nodes, done, stack, limit)->Ok_0;
            &&& is_plan_order(scope, order)
            &&& done.is_prefix_of(order)
            &&& forall|i: int| 0 <= i < nodes.len() ==> order.contains(#[trigger] nodes[i])
            &&& forall|k: int|
                done.len() <= k < order.len() ==> !stack.contains(#[trigger] order[k])
        }),
    decreases limit, nodes.len() + 1,
{
    if nodes.len() > 0 {
        law_plan_is_dependency_first(scope, nodes.drop_last(), done, stack, limit);
        let middle = visited_all(scope, nodes.drop_last(), done, stack, limit)->Ok_0;
        lemma_visit_is_dependency_first(scope, nodes.last(), middle, stack, limit);
        let order = visited(scope, nodes.last(), middle, stack, limit)->Ok_0;
        assert(done.is_prefix_of(order)) by {
            assert(order.subrange(0, done.len() as int) =~= middle.subrange(0, done.len() as int))
            by {
                assert forall|j: int| 0 <= j < done.len() implies order[j] == middle[j] by {
                    assert(order.subrange(0, middle.len() as int)[j] == middle[j]);
                }
            }
        }
        assert forall|i: int| 0 <= i < nodes.len() implies order.contains(#[trigger] nodes[i]) by {
            if i < nodes.len() - 1 {
                assert(nodes.drop_last()[i] == nodes[i]);
                let j = choose|j: int| 0 <= j < middle.len() && middle[j] == nodes[i];
                assert(order.subrange(0, middle.len() as int)[j] == nodes[i]);
                assert(order[j] == nodes[i]);
            }
        }
        assert forall|k: int| done.len() <= k < order.len() implies !stack.contains(
            #[trigger] order[k],
        ) by {
            if k < middle.len() {
                assert(order.subrange(0, middle.len() as int)[k] == middle[k]);
            }
        }
    } else {
        assert(done.subrange(0, done.len() as int) =~= done);
    }
}

proof fn lemma_visit_is_dependency_first(
    scope: Scope,
    node: Node,
    done: Seq<Node>,
    stack: Seq<Node>,
    limit: nat,
)
    requires
        is_plan_order(scope, done),
        visited(scope, node, done, stack, limit) is Ok,
    ensures
        ({
            let order = visited(scope, node, done, stack, limit)->Ok_0;
            &&& is_plan_order(scope, order)
            &&& done.is_prefix_of(order)
            &&& order.contains(node)
            &&& forall|k: int|
                done.len() <= k < order.len() ==> !stack.contains(#[trigger] order[k])
        }),
    decreases limit, 0nat,
{
    if done.contains(node) {
        assert(done.subrange(0, done.len() as int) =~= done);
    } else {
        let needed = dependencies(scope, node)->Ok_0;
        let waiting = stack.push(node);
        law_plan_is_dependency_first(scope, needed, done, waiting, (limit - 1) as nat);
        let middle = visited_all(scope, needed, done, waiting, (limit - 1) as nat)->Ok_0;
        let order = middle.push(node);
        assert(order == visited(scope, node, done, stack, limit)->Ok_0);
        assert(waiting[waiting.len() - 1] == node);
        assert(!middle.contains(node)) by {
            if middle.contains(node) {
                let k = choose|k: int| 0 <= k < middle.len() && middle[k] == node;
                if k < done.len() {
                    assert(middle.subrange(0, done.len() as int)[k] == done[k]);
                    assert(done.contains(node));
                } else {
                    assert(!waiting.contains(middle[k]));
                }
            }
        }
        assert(order.no_duplicates()) by {
            assert forall|i: int, j: int|
                0 <= i < order.len() && 0 <= j < order.len() && i != j implies order[i]
                != order[j] by {
                if i < middle.len() && j < middle.len() {
                    assert(order[i] == middle[i] && order[j] == middle[j]);
                } else if i < middle.len() {
                    assert(order[i] == middle[i]);
                    assert(middle.contains(middle[i]));
                } else {
                    assert(order[j] == middle[j]);
                    assert(middle.contains(middle[j]));
                }
            }
        }
        assert forall|k: int| 0 <= k < order.len() implies dependencies(
            scope,
            #[trigger] order[k],
        ) is Ok by {
            if k < middle.len() {
                assert(order[k] == middle[k]);
            }
        }
        assert forall|k: int, d: Node|
            0 <= k < order.len() && #[trigger] dependencies(scope, order[k])->Ok_0.contains(
                d,
            ) implies order.take(k).contains(d) by {
            if k < middle.len() {
                assert(order[k] == middle[k]);
                assert(order.take(k) =~= middle.take(k));
            } else {
                assert(order.take(k) =~= middle);
                let i = choose|i: int| 0 <= i < needed.len() && needed[i] == d;
                assert(middle.contains(needed[i]));
            }
        }
        assert(order.subrange(0, done.len() as int) =~= middle.subrange(0, done.len() as int));
        assert(order[order.len() - 1] == node);
        assert forall|k: int| done.len() <= k < order.len() implies !stack.contains(
            #[trigger] order[k],
        ) by {
            if k < middle.len() {
                assert(order[k] == middle[k]);
                assert(!waiting.contains(middle[k]));
                if stack.contains(order[k]) {
                    let j = choose|j: int| 0 <= j < stack.len() && stack[j] == order[k];
                    assert(waiting[j] == middle[k]);
                }
            }
        }
    }
}

/// Whether each task of `chain` depends on the one behind it.
pub open spec fn is_chain(scope: Scope, chain: Seq<Node>) -> bool {
    forall|i: int|
        0 <= i < chain.len() - 1 ==> dependencies(scope, #[trigger] chain[i]) is Ok
            && dependencies(scope, chain[i])->Ok_0.contains(chain[i + 1])
}

/// Whether `chain` leads from a task back to itself.
pub open spec fn is_cycle(scope: Scope, chain: Seq<Node>) -> bool {
    chain.len() >= 2 && chain[0] == chain.last() && is_chain(scope, chain)
}

proof fn lemma_cycle_path(scope: Scope, stack: Seq<Node>, node: Node)
    requires
        stack.contains(node),
        is_chain(scope, stack.push(node)),
    ensures
        is_cycle(scope, cycle_path(stack, node)),
    decreases stack.len(),
{
    if stack[0] == node {
        assert(stack.push(node)[0] == node);
    } else {
        let rest = stack.drop_first();
        let k = choose|k: int| 0 <= k < stack.len() && stack[k] == node;
        assert(rest[k - 1] == node);
        assert(rest.push(node) =~= stack.push(node).drop_first());
        assert forall|i: int| 0 <= i < rest.push(node).len() - 1 implies dependencies(
            scope,
            #[trigger] rest.push(node)[i],
        ) is Ok && dependencies(scope, rest.push(node)[i])->Ok_0.contains(
            rest.push(node)[i + 1],
        ) by {
            assert(rest.push(node)[i] == stack.push(node)[i + 1]);
            assert(rest.push(node)[i + 1] == stack.push(node)[i + 2]);
        }
        lemma_cycle_path(scope, rest, node);
    }
}

/// The members of a chain of waiting tasks that planning can reach.
pub open spec fn is_waiting_chain(
    scope: Scope,
    universe: Seq<Node>,
    stack: Seq<Node>,
) -> bool {
    &&& stack.no_duplicates()
    &&& is_chain(scope, stack)
    &&& forall|i: int| 0 <= i < stack.len() ==> universe.contains(#[trigger] stack[i])
}

/// A cycle that planning reports is one: each task on the path depends on the
/// next, and the path ends where it begins.
pub proof fn law_reported_cycle_is_a_cycle(scope: Scope, root: Node, done: Seq<Node>)
    requires
        visited(scope, root, done, seq![], depth_limit(scope)) matches Err(
            WorkspaceFault::TaskCycle { .. },
        ),
    ensures
        visited(scope, root, done, seq![], depth_limit(scope)) matches Err(
            WorkspaceFault::TaskCycle { path },
        ) && is_cycle(scope, path),
{
    let universe = mentioned(scope).push(root);
    assert(universe[universe.len() - 1] == root);
    lemma_mentioned_is_closed(scope, root);
    lemma_visit_cycle(scope, universe, root, done, seq![], depth_limit(scope));
}

/// Whether `universe` holds whatever its members depend on.
pub open spec fn is_closed(scope: Scope, universe: Seq<Node>) -> bool {
    forall|n: Node, d: Node|
        dependencies(scope, n) is Ok && #[trigger] dependencies(scope, n)->Ok_0.contains(d)
            ==> universe.contains(d)
}

pub proof fn lemma_mentioned_is_closed(scope: Scope, root: Node)
    ensures
        is_closed(scope, mentioned(scope).push(root)),
{
    let universe = mentioned(scope).push(root);
    assert forall|n: Node, d: Node|
        dependencies(scope, n) is Ok && #[trigger] dependencies(scope, n)->Ok_0.contains(
            d,
        ) implies universe.contains(d) by {
        lemma_dependencies_mentioned(scope, n);
        let k = choose|k: int| 0 <= k < mentioned(scope).len() && mentioned(scope)[k] == d;
        assert(universe[k] == d);
    }
}

proof fn lemma_visit_cycle(
    scope: Scope,
    universe: Seq<Node>,
    node: Node,
    done: Seq<Node>,
    stack: Seq<Node>,
    limit: nat,
)
    requires
        is_waiting_chain(scope, universe, stack),
        is_chain(scope, stack.push(node)),
        universe.contains(node),
        limit == universe.len() + 1 - stack.len(),
        is_closed(scope, universe),
        visited(scope, node, done, stack, limit) matches Err(WorkspaceFault::TaskCycle { .. }),
    ensures
        visited(scope, node, done, stack, limit) matches Err(WorkspaceFault::TaskCycle { path })
            && is_cycle(scope, path),
    decreases limit, 0nat,
{
    lemma_chain_bound(stack, universe);
    if stack.contains(node) {
        lemma_cycle_path(scope, stack, node);
    } else {
        match dependencies(scope, node) {
            Err(fault) => {
                lemma_dependencies_no_cycle(scope, node);
            },
            Ok(needed) => {
                let waiting = stack.push(node);
                lemma_push_waiting(scope, universe, stack, node);
                lemma_visit_all_cycle(
                    scope,
                    universe,
                    node,
                    needed,
                    done,
                    waiting,
                    (limit - 1) as nat,
                );
            },
        }
    }
}

pub proof fn lemma_push_waiting(
    scope: Scope,
    universe: Seq<Node>,
    stack: Seq<Node>,
    node: Node,
)
    requires
        is_waiting_chain(scope, universe, stack),
        is_chain(scope, stack.push(node)),
        universe.contains(node),
        !stack.contains(node),
    ensures
        is_waiting_chain(scope, universe, stack.push(node)),
{
    let waiting = stack.push(node);
    assert forall|i: int, j: int|
        0 <= i < waiting.len() && 0 <= j < waiting.len() && i != j implies waiting[i]
        != waiting[j] by {
        if i < stack.len() && j < stack.len() {
            assert(waiting[i] == stack[i] && waiting[j] == stack[j]);
        } else if i < stack.len() {
            assert(stack.contains(stack[i]));
        } else {
            assert(stack.contains(stack[j]));
        }
    }
}

pub proof fn lemma_chain_push(scope: Scope, stack: Seq<Node>, node: Node)
    requires
        is_chain(scope, stack),
        stack.len() > 0,
        dependencies(scope, stack.last()) is Ok,
        dependencies(scope, stack.last())->Ok_0.contains(node),
    ensures
        is_chain(scope, stack.push(node)),
{
    let longer = stack.push(node);
    assert forall|i: int| 0 <= i < longer.len() - 1 implies dependencies(
        scope,
        #[trigger] longer[i],
    ) is Ok && dependencies(scope, longer[i])->Ok_0.contains(longer[i + 1]) by {
        assert(longer[i] == stack[i]);
        if i < stack.len() - 1 {
            assert(longer[i + 1] == stack[i + 1]);
        }
    }
}

proof fn lemma_visit_all_cycle(
    scope: Scope,
    universe: Seq<Node>,
    parent: Node,
    nodes: Seq<Node>,
    done: Seq<Node>,
    stack: Seq<Node>,
    limit: nat,
)
    requires
        is_waiting_chain(scope, universe, stack),
        stack.len() > 0,
        stack.last() == parent,
        dependencies(scope, parent) is Ok,
        forall|i: int|
            0 <= i < nodes.len() ==> dependencies(scope, parent)->Ok_0.contains(
                #[trigger] nodes[i],
            ),
        limit == universe.len() + 1 - stack.len(),
        is_closed(scope, universe),
        visited_all(scope, nodes, done, stack, limit) matches Err(WorkspaceFault::TaskCycle { .. }),
    ensures
        visited_all(scope, nodes, done, stack, limit) matches Err(WorkspaceFault::TaskCycle { path })
            && is_cycle(scope, path),
    decreases limit, nodes.len() + 1,
{
    let rest = nodes.drop_last();
    assert forall|i: int| 0 <= i < rest.len() implies dependencies(scope, parent)->Ok_0.contains(
        #[trigger] rest[i],
    ) by {
        assert(rest[i] == nodes[i]);
    }
    match visited_all(scope, rest, done, stack, limit) {
        Err(_) => {
            lemma_visit_all_cycle(scope, universe, parent, rest, done, stack, limit);
        },
        Ok(order) => {
            let node = nodes.last();
            assert(node == nodes[nodes.len() - 1]);
            lemma_chain_push(scope, stack, node);
            lemma_visit_cycle(scope, universe, node, order, stack, limit);
        },
    }
}

proof fn lemma_refs_no_cycle(current: Node, references: Seq<Seq<char>>)
    ensures
        !(resolved_refs(current, references) matches Err(WorkspaceFault::TaskCycle { .. })),
    decreases references.len(),
{
    if references.len() > 0 {
        lemma_refs_no_cycle(current, references.drop_last());
    }
}

proof fn lemma_dependencies_no_cycle(scope: Scope, node: Node)
    ensures
        !(dependencies(scope, node) matches Err(WorkspaceFault::TaskCycle { .. })),
{
    if let Ok(task) = task_of(scope, node) {
        lemma_refs_no_cycle(node, texts(task.depends_on@));
    }
}

} // verus!
