//! The task graph of a project: which tasks a task depends on, and in which
//! order tasks are planned.

use vstd::prelude::*;

use crate::config::TaskConfig;
use crate::map::{inserted, keys, lemma_lookup_some, lookup};
use crate::project::error::ProjectFault;
use crate::project::matrix::{base_name, dimensions_of, instance_name, instance_problem};
use crate::project::matrix::{instances_of, law_fixed_instances_are_instances, list_entries, Dimensions};
use crate::project::suggest::closest;
use crate::project::validate::reference_problem;
use crate::text::texts;

verus! {

/// The tasks of a project by name.
pub type Tasks = Seq<(Seq<char>, TaskConfig)>;

/// The fault for a task that does not exist.
pub open spec fn missing_task(tasks: Tasks, task: Seq<char>) -> ProjectFault {
    ProjectFault::MissingTask { task, suggestion: closest(task, keys(tasks)) }
}

/// The fault for a reference that cannot be read.
pub open spec fn bad_reference(reference: Seq<char>, from: Seq<char>) -> ProjectFault {
    ProjectFault::InvalidTaskReference { reference, from }
}

/// The configuration that an instance runs.
pub open spec fn task_of(tasks: Tasks, node: Seq<char>) -> Result<TaskConfig, ProjectFault> {
    match base_name(node) {
        None => Err(bad_reference(node, node)),
        Some(base) => match lookup(tasks, base) {
            None => Err(missing_task(tasks, node)),
            Some(task) => Ok(task),
        },
    }
}

/// The names of a list of instances.
pub open spec fn instance_names(base: Seq<char>, instances: Seq<Dimensions>) -> Seq<Seq<char>> {
    instances.map_values(|d: Dimensions| instance_name(base, d))
}

/// The instances that one reference of `current` stands for: an explicit
/// instance itself, and of a matrix task every instance that agrees with the
/// dimensions of `current`.
pub open spec fn resolved_ref(tasks: Tasks, current: Seq<char>, reference: Seq<char>) -> Result<
    Seq<Seq<char>>,
    ProjectFault,
> {
    if reference_problem(reference) is Some {
        Err(bad_reference(reference, current))
    } else {
        match task_of(tasks, reference) {
            Err(fault) => Err(fault),
            Ok(task) => match dimensions_of(reference) {
                None => Err(bad_reference(reference, current)),
                Some(explicit) => if explicit.len() > 0 {
                    match instance_problem(list_entries(task.matrix@), explicit) {
                        Some(message) => Err(
                            ProjectFault::InvalidTask { task: reference, message },
                        ),
                        None => Ok(seq![reference]),
                    }
                } else {
                    match dimensions_of(current) {
                        None => Err(bad_reference(current, current)),
                        Some(dimensions) => match instances_of(
                            list_entries(task.matrix@),
                            dimensions,
                        ) {
                            Err(message) => Err(
                                ProjectFault::InvalidTask { task: reference, message },
                            ),
                            Ok(instances) => Ok(
                                instance_names(base_name(reference)->0, instances),
                            ),
                        },
                    }
                },
            },
        }
    }
}

/// The instances that the references of `current` stand for, in order.
pub open spec fn resolved_refs(
    tasks: Tasks,
    current: Seq<char>,
    references: Seq<Seq<char>>,
) -> Result<Seq<Seq<char>>, ProjectFault>
    decreases references.len(),
{
    if references.len() == 0 {
        Ok(seq![])
    } else {
        match resolved_refs(tasks, current, references.drop_last()) {
            Err(fault) => Err(fault),
            Ok(earlier) => match resolved_ref(tasks, current, references.last()) {
                Err(fault) => Err(fault),
                Ok(last) => Ok(earlier + last),
            },
        }
    }
}

/// The instances that must be done before `node` runs.
pub open spec fn dependencies(tasks: Tasks, node: Seq<char>) -> Result<
    Seq<Seq<char>>,
    ProjectFault,
> {
    match task_of(tasks, node) {
        Err(fault) => Err(fault),
        Ok(task) => resolved_refs(tasks, node, texts(task.depends_on@)),
    }
}

/// The instances that a requested name stands for.
pub open spec fn root_ids(tasks: Tasks, name: Seq<char>) -> Result<Seq<Seq<char>>, ProjectFault> {
    match task_of(tasks, name) {
        Err(fault) => Err(fault),
        Ok(task) => match dimensions_of(name) {
            None => Err(bad_reference(name, name)),
            Some(explicit) => if explicit.len() > 0 {
                match instance_problem(list_entries(task.matrix@), explicit) {
                    Some(message) => Err(ProjectFault::InvalidTask { task: name, message }),
                    None => Ok(seq![name]),
                }
            } else {
                match instances_of(list_entries(task.matrix@), seq![]) {
                    Err(message) => Err(ProjectFault::InvalidTask { task: name, message }),
                    Ok(instances) => Ok(instance_names(base_name(name)->0, instances)),
                }
            },
        },
    }
}

/// A set of identities, in their order.
pub type IdSet = Seq<(Seq<char>, bool)>;

/// `set` with `ids` added.
pub open spec fn with_ids(set: IdSet, ids: Seq<Seq<char>>) -> IdSet
    decreases ids.len(),
{
    if ids.len() == 0 {
        set
    } else {
        inserted(with_ids(set, ids.drop_last()), ids.last(), true)
    }
}

/// The instances that some requested names stand for, each once, in order.
pub open spec fn root_set(tasks: Tasks, names: Seq<Seq<char>>) -> Result<IdSet, ProjectFault>
    decreases names.len(),
{
    if names.len() == 0 {
        Ok(seq![])
    } else {
        match root_set(tasks, names.drop_last()) {
            Err(fault) => Err(fault),
            Ok(set) => match root_ids(tasks, names.last()) {
                Err(fault) => Err(fault),
                Ok(ids) => Ok(with_ids(set, ids)),
            },
        }
    }
}

// ---------------------------------------------------------------------------
// Depth-first order
// ---------------------------------------------------------------------------
/// Every identity that the tasks mention: the references they make, and their
/// instances.
pub open spec fn mentioned(tasks: Tasks) -> Seq<Seq<char>>
    decreases tasks.len(),
{
    if tasks.len() == 0 {
        seq![]
    } else {
        let (name, task) = tasks.last();
        mentioned(tasks.drop_last()) + texts(task.depends_on@) + instance_names(
            name,
            instances_of(list_entries(task.matrix@), seq![])->Ok_0,
        )
    }
}

/// More steps than any chain of distinct dependencies can have.
pub open spec fn depth_limit(tasks: Tasks) -> nat {
    mentioned(tasks).len() + 2
}

/// The part of `stack` from the first `node` on, and `node` again.
pub open spec fn cycle_path(stack: Seq<Seq<char>>, node: Seq<char>) -> Seq<Seq<char>>
    decreases stack.len(),
{
    if stack.len() == 0 || stack[0] == node {
        stack.push(node)
    } else {
        cycle_path(stack.drop_first(), node)
    }
}

/// The planned order `done`, extended by `node` and whatever it needs first.
///
/// `stack` is the chain of tasks that are waiting for `node`. `limit` bounds
/// the chains that are followed; `depth_limit` is never reached.
pub open spec fn visited(
    tasks: Tasks,
    node: Seq<char>,
    done: Seq<Seq<char>>,
    stack: Seq<Seq<char>>,
    limit: nat,
) -> Result<Seq<Seq<char>>, ProjectFault>
    decreases limit, 0nat,
{
    if done.contains(node) {
        Ok(done)
    } else if stack.contains(node) || limit == 0 {
        Err(ProjectFault::TaskCycle { path: cycle_path(stack, node) })
    } else {
        match dependencies(tasks, node) {
            Err(fault) => Err(fault),
            Ok(needed) => match visited_all(
                tasks,
                needed,
                done,
                stack.push(node),
                (limit - 1) as nat,
            ) {
                Err(fault) => Err(fault),
                Ok(order) => Ok(order.push(node)),
            },
        }
    }
}

/// The planned order `done`, extended by each of `nodes` in turn.
pub open spec fn visited_all(
    tasks: Tasks,
    nodes: Seq<Seq<char>>,
    done: Seq<Seq<char>>,
    stack: Seq<Seq<char>>,
    limit: nat,
) -> Result<Seq<Seq<char>>, ProjectFault>
    decreases limit, nodes.len() + 1,
{
    if nodes.len() == 0 {
        Ok(done)
    } else {
        match visited_all(tasks, nodes.drop_last(), done, stack, limit) {
            Err(fault) => Err(fault),
            Ok(order) => visited(tasks, nodes.last(), order, stack, limit),
        }
    }
}

pub proof fn lemma_visited_error_stays(
    tasks: Tasks,
    nodes: Seq<Seq<char>>,
    done: Seq<Seq<char>>,
    stack: Seq<Seq<char>>,
    limit: nat,
    k: int,
)
    requires
        0 <= k <= nodes.len(),
        visited_all(tasks, nodes.take(k), done, stack, limit) is Err,
    ensures
        visited_all(tasks, nodes, done, stack, limit) == visited_all(
            tasks,
            nodes.take(k),
            done,
            stack,
            limit,
        ),
    decreases nodes.len() - k,
{
    if k < nodes.len() {
        assert(nodes.take(k + 1).drop_last() =~= nodes.take(k));
        lemma_visited_error_stays(tasks, nodes, done, stack, limit, k + 1);
    } else {
        assert(nodes.take(k) =~= nodes);
    }
}

pub proof fn lemma_refs_error_stays(
    tasks: Tasks,
    current: Seq<char>,
    references: Seq<Seq<char>>,
    k: int,
)
    requires
        0 <= k <= references.len(),
        resolved_refs(tasks, current, references.take(k)) is Err,
    ensures
        resolved_refs(tasks, current, references) == resolved_refs(
            tasks,
            current,
            references.take(k),
        ),
    decreases references.len() - k,
{
    if k < references.len() {
        assert(references.take(k + 1).drop_last() =~= references.take(k));
        lemma_refs_error_stays(tasks, current, references, k + 1);
    } else {
        assert(references.take(k) =~= references);
    }
}

pub proof fn lemma_root_error_stays(tasks: Tasks, names: Seq<Seq<char>>, k: int)
    requires
        0 <= k <= names.len(),
        root_set(tasks, names.take(k)) is Err,
    ensures
        root_set(tasks, names) == root_set(tasks, names.take(k)),
    decreases names.len() - k,
{
    if k < names.len() {
        assert(names.take(k + 1).drop_last() =~= names.take(k));
        lemma_root_error_stays(tasks, names, k + 1);
    } else {
        assert(names.take(k) =~= names);
    }
}

// ---------------------------------------------------------------------------
// The graph is finite
// ---------------------------------------------------------------------------
proof fn lemma_mentioned_entry(tasks: Tasks, i: int)
    requires
        0 <= i < tasks.len(),
    ensures
        forall|r: Seq<char>| #[trigger]
            texts(tasks[i].1.depends_on@).contains(r) ==> mentioned(tasks).contains(r),
        forall|n: Seq<char>| #[trigger]
            instance_names(
                tasks[i].0,
                instances_of(list_entries(tasks[i].1.matrix@), seq![])->Ok_0,
            ).contains(n) ==> mentioned(tasks).contains(n),
    decreases tasks.len(),
{
    let (name, task) = tasks.last();
    let head = mentioned(tasks.drop_last());
    let refs = texts(task.depends_on@);
    let names = instance_names(name, instances_of(list_entries(task.matrix@), seq![])->Ok_0);
    let all = head + refs + names;
    assert(all == mentioned(tasks));
    assert forall|x: Seq<char>| head.contains(x) implies all.contains(x) by {
        let k = choose|k: int| 0 <= k < head.len() && head[k] == x;
        assert(all[k] == x);
    }
    assert forall|x: Seq<char>| refs.contains(x) implies all.contains(x) by {
        let k = choose|k: int| 0 <= k < refs.len() && refs[k] == x;
        assert(all[head.len() + k] == x);
    }
    assert forall|x: Seq<char>| names.contains(x) implies all.contains(x) by {
        let k = choose|k: int| 0 <= k < names.len() && names[k] == x;
        assert(all[head.len() + refs.len() + k] == x);
    }
    if i < tasks.len() - 1 {
        lemma_mentioned_entry(tasks.drop_last(), i);
        assert(tasks.drop_last()[i] == tasks[i]);
    }
}

/// Whatever a reference of a known task stands for is mentioned.
proof fn lemma_ref_mentioned(tasks: Tasks, current: Seq<char>, reference: Seq<char>)
    requires
        mentioned(tasks).contains(reference),
        resolved_ref(tasks, current, reference) is Ok,
    ensures
        forall|n: Seq<char>| #[trigger]
            resolved_ref(tasks, current, reference)->Ok_0.contains(n) ==> mentioned(
                tasks,
            ).contains(n),
{
    let base = base_name(reference)->0;
    let task = task_of(tasks, reference)->Ok_0;
    lemma_lookup_some(tasks, base);
    let i = choose|i: int| 0 <= i < tasks.len() && #[trigger] tasks[i] == (base, lookup(tasks, base)->0);
    lemma_mentioned_entry(tasks, i);
    let explicit = dimensions_of(reference)->0;
    if explicit.len() == 0 {
        let dimensions = dimensions_of(current)->0;
        let matrix = list_entries(task.matrix@);
        law_fixed_instances_are_instances(matrix, dimensions);
        let some = instances_of(matrix, dimensions)->Ok_0;
        let all = instances_of(matrix, seq![])->Ok_0;
        assert forall|n: Seq<char>| instance_names(base, some).contains(n) implies instance_names(
            base,
            all,
        ).contains(n) by {
            let k = choose|k: int| 0 <= k < some.len() && instance_names(base, some)[k] == n;
            assert(some.contains(some[k]));
            assert(all.contains(some[k]));
            let m = choose|m: int| 0 <= m < all.len() && all[m] == some[k];
            assert(instance_names(base, all)[m] == n);
        }
        assert(tasks[i].0 == base && tasks[i].1 == task);
        assert forall|n: Seq<char>| #[trigger] resolved_ref(
            tasks,
            current,
            reference,
        )->Ok_0.contains(n) implies mentioned(tasks).contains(n) by {
            assert(instance_names(base, some).contains(n));
            assert(instance_names(
                tasks[i].0,
                instances_of(list_entries(tasks[i].1.matrix@), seq![])->Ok_0,
            ).contains(n));
        }
    } else {
        assert(resolved_ref(tasks, current, reference)->Ok_0 == seq![reference]);
        assert forall|n: Seq<char>| #[trigger] seq![reference].contains(n) implies mentioned(
            tasks,
        ).contains(n) by {
            assert(n == reference);
        }
    }
}

proof fn lemma_refs_mentioned(tasks: Tasks, current: Seq<char>, references: Seq<Seq<char>>)
    requires
        forall|r: Seq<char>| #[trigger] references.contains(r) ==> mentioned(tasks).contains(r),
        resolved_refs(tasks, current, references) is Ok,
    ensures
        forall|n: Seq<char>| #[trigger]
            resolved_refs(tasks, current, references)->Ok_0.contains(n) ==> mentioned(
                tasks,
            ).contains(n),
    decreases references.len(),
{
    if references.len() > 0 {
        let rest = references.drop_last();
        assert forall|r: Seq<char>| #[trigger] rest.contains(r) implies mentioned(
            tasks,
        ).contains(r) by {
            let k = choose|k: int| 0 <= k < rest.len() && rest[k] == r;
            assert(references[k] == r);
            assert(references.contains(r));
        }
        lemma_refs_mentioned(tasks, current, rest);
        assert(references.contains(references.last()));
        lemma_ref_mentioned(tasks, current, references.last());
        let head = resolved_refs(tasks, current, rest)->Ok_0;
        let tail = resolved_ref(tasks, current, references.last())->Ok_0;
        assert forall|n: Seq<char>| #[trigger] (head + tail).contains(n) implies mentioned(
            tasks,
        ).contains(n) by {
            let k = choose|k: int| 0 <= k < (head + tail).len() && (head + tail)[k] == n;
            if k < head.len() {
                assert(head[k] == n);
                assert(head.contains(n));
            } else {
                assert(tail[k - head.len()] == n);
                assert(tail.contains(n));
            }
        }
    }
}

/// Every dependency of every task is mentioned.
pub proof fn lemma_dependencies_mentioned(tasks: Tasks, node: Seq<char>)
    requires
        dependencies(tasks, node) is Ok,
    ensures
        forall|n: Seq<char>| #[trigger]
            dependencies(tasks, node)->Ok_0.contains(n) ==> mentioned(tasks).contains(n),
{
    let base = base_name(node)->0;
    let task = task_of(tasks, node)->Ok_0;
    lemma_lookup_some(tasks, base);
    let i = choose|i: int| 0 <= i < tasks.len() && #[trigger] tasks[i] == (base, lookup(tasks, base)->0);
    lemma_mentioned_entry(tasks, i);
    lemma_refs_mentioned(tasks, node, texts(task.depends_on@));
}

/// A chain of distinct members of `universe` is no longer than `universe`.
pub proof fn lemma_chain_bound<N>(chain: Seq<N>, universe: Seq<N>)
    requires
        chain.no_duplicates(),
        forall|i: int| 0 <= i < chain.len() ==> universe.contains(#[trigger] chain[i]),
    ensures
        chain.len() <= universe.len(),
{
    chain.unique_seq_to_set();
    universe.lemma_cardinality_of_set();
    assert(chain.to_set().subset_of(universe.to_set())) by {
        assert forall|x: N| chain.to_set().contains(x) implies universe.to_set().contains(
            x,
        ) by {
            let k = choose|k: int| 0 <= k < chain.len() && chain[k] == x;
            assert(universe.contains(chain[k]));
        }
    }
    vstd::seq_lib::seq_to_set_is_finite(universe);
    vstd::set_lib::lemma_len_subset(chain.to_set(), universe.to_set());
}

// ---------------------------------------------------------------------------
// Laws
// ---------------------------------------------------------------------------
/// Whether `order` lists no task twice, and each task after all it depends on.
pub open spec fn is_plan_order(tasks: Tasks, order: Seq<Seq<char>>) -> bool {
    &&& order.no_duplicates()
    &&& forall|k: int|
        0 <= k < order.len() ==> dependencies(tasks, #[trigger] order[k]) is Ok
    &&& forall|k: int, d: Seq<char>|
        0 <= k < order.len() && #[trigger] dependencies(tasks, order[k])->Ok_0.contains(d)
            ==> order.take(k).contains(d)
}

/// Planning keeps what is planned already, puts every dependency before its
/// dependents, and lists nothing twice.
pub proof fn law_plan_is_dependency_first(
    tasks: Tasks,
    nodes: Seq<Seq<char>>,
    done: Seq<Seq<char>>,
    stack: Seq<Seq<char>>,
    limit: nat,
)
    requires
        is_plan_order(tasks, done),
        visited_all(tasks, nodes, done, stack, limit) is Ok,
    ensures
        ({
            let order = visited_all(tasks, nodes, done, stack, limit)->Ok_0;
            &&& is_plan_order(tasks, order)
            &&& done.is_prefix_of(order)
            &&& forall|i: int| 0 <= i < nodes.len() ==> order.contains(#[trigger] nodes[i])
            &&& forall|k: int|
                done.len() <= k < order.len() ==> !stack.contains(#[trigger] order[k])
        }),
    decreases limit, nodes.len() + 1,
{
    if nodes.len() > 0 {
        law_plan_is_dependency_first(tasks, nodes.drop_last(), done, stack, limit);
        let middle = visited_all(tasks, nodes.drop_last(), done, stack, limit)->Ok_0;
        lemma_visit_is_dependency_first(tasks, nodes.last(), middle, stack, limit);
        let order = visited(tasks, nodes.last(), middle, stack, limit)->Ok_0;
        assert(done.is_prefix_of(order)) by {
            assert(order.subrange(0, done.len() as int) =~= middle.subrange(0, done.len() as int))
            by {
                assert forall|j: int| 0 <= j < done.len() implies order[j] == middle[j] by {
                    assert(order.subrange(0, middle.len() as int)[j] == middle[j]);
                }
            }
        }
        assert forall|i: int| 0 <= i < nodes.len() implies order.contains(#[trigger] nodes[i]) by {
            if i < nodes.len() - 1 {
                assert(nodes.drop_last()[i] == nodes[i]);
                let j = choose|j: int| 0 <= j < middle.len() && middle[j] == nodes[i];
                assert(order.subrange(0, middle.len() as int)[j] == nodes[i]);
                assert(order[j] == nodes[i]);
            }
        }
        assert forall|k: int| done.len() <= k < order.len() implies !stack.contains(
            #[trigger] order[k],
        ) by {
            if k < middle.len() {
                assert(order.subrange(0, middle.len() as int)[k] == middle[k]);
            }
        }
    } else {
        assert(done.subrange(0, done.len() as int) =~= done);
    }
}

proof fn lemma_visit_is_dependency_first(
    tasks: Tasks,
    node: Seq<char>,
    done: Seq<Seq<char>>,
    stack: Seq<Seq<char>>,
    limit: nat,
)
    requires
        is_plan_order(tasks, done),
        visited(tasks, node, done, stack, limit) is Ok,
    ensures
        ({
            let order = visited(tasks, node, done, stack, limit)->Ok_0;
            &&& is_plan_order(tasks, order)
            &&& done.is_prefix_of(order)
            &&& order.contains(node)
            &&& forall|k: int|
                done.len() <= k < order.len() ==> !stack.contains(#[trigger] order[k])
        }),
    decreases limit, 0nat,
{
    if done.contains(node) {
        assert(done.subrange(0, done.len() as int) =~= done);
    } else {
        let needed = dependencies(tasks, node)->Ok_0;
        let waiting = stack.push(node);
        law_plan_is_dependency_first(tasks, needed, done, waiting, (limit - 1) as nat);
        let middle = visited_all(tasks, needed, done, waiting, (limit - 1) as nat)->Ok_0;
        let order = middle.push(node);
        assert(order == visited(tasks, node, done, stack, limit)->Ok_0);
        assert(waiting[waiting.len() - 1] == node);
        assert(!middle.contains(node)) by {
            if middle.contains(node) {
                let k = choose|k: int| 0 <= k < middle.len() && middle[k] == node;
                if k < done.len() {
                    assert(middle.subrange(0, done.len() as int)[k] == done[k]);
                    assert(done.contains(node));
                } else {
                    assert(!waiting.contains(middle[k]));
                }
            }
        }
        assert(order.no_duplicates()) by {
            assert forall|i: int, j: int|
                0 <= i < order.len() && 0 <= j < order.len() && i != j implies order[i]
                != order[j] by {
                if i < middle.len() && j < middle.len() {
                    assert(order[i] == middle[i] && order[j] == middle[j]);
                } else if i < middle.len() {
                    assert(order[i] == middle[i]);
                    assert(middle.contains(middle[i]));
                } else {
                    assert(order[j] == middle[j]);
                    assert(middle.contains(middle[j]));
                }
            }
        }
        assert forall|k: int| 0 <= k < order.len() implies dependencies(
            tasks,
            #[trigger] order[k],
        ) is Ok by {
            if k < middle.len() {
                assert(order[k] == middle[k]);
            }
        }
        assert forall|k: int, d: Seq<char>|
            0 <= k < order.len() && #[trigger] dependencies(tasks, order[k])->Ok_0.contains(
                d,
            ) implies order.take(k).contains(d) by {
            if k < middle.len() {
                assert(order[k] == middle[k]);
                assert(order.take(k) =~= middle.take(k));
            } else {
                assert(order.take(k) =~= middle);
                let i = choose|i: int| 0 <= i < needed.len() && needed[i] == d;
                assert(middle.contains(needed[i]));
            }
        }
        assert(order.subrange(0, done.len() as int) =~= middle.subrange(0, done.len() as int));
        assert(order[order.len() - 1] == node);
        assert forall|k: int| done.len() <= k < order.len() implies !stack.contains(
            #[trigger] order[k],
        ) by {
            if k < middle.len() {
                assert(order[k] == middle[k]);
                assert(!waiting.contains(middle[k]));
                if stack.contains(order[k]) {
                    let j = choose|j: int| 0 <= j < stack.len() && stack[j] == order[k];
                    assert(waiting[j] == middle[k]);
                }
            }
        }
    }
}

/// Whether each task of `chain` depends on the one behind it.
pub open spec fn is_chain(tasks: Tasks, chain: Seq<Seq<char>>) -> bool {
    forall|i: int|
        0 <= i < chain.len() - 1 ==> dependencies(tasks, #[trigger] chain[i]) is Ok
            && dependencies(tasks, chain[i])->Ok_0.contains(chain[i + 1])
}

/// Whether `chain` leads from a task back to itself.
pub open spec fn is_cycle(tasks: Tasks, chain: Seq<Seq<char>>) -> bool {
    chain.len() >= 2 && chain[0] == chain.last() && is_chain(tasks, chain)
}

proof fn lemma_cycle_path(tasks: Tasks, stack: Seq<Seq<char>>, node: Seq<char>)
    requires
        stack.contains(node),
        is_chain(tasks, stack.push(node)),
    ensures
        is_cycle(tasks, cycle_path(stack, node)),
    decreases stack.len(),
{
    if stack[0] == node {
        assert(stack.push(node)[0] == node);
    } else {
        let rest = stack.drop_first();
        let k = choose|k: int| 0 <= k < stack.len() && stack[k] == node;
        assert(rest[k - 1] == node);
        assert(rest.push(node) =~= stack.push(node).drop_first());
        assert forall|i: int| 0 <= i < rest.push(node).len() - 1 implies dependencies(
            tasks,
            #[trigger] rest.push(node)[i],
        ) is Ok && dependencies(tasks, rest.push(node)[i])->Ok_0.contains(
            rest.push(node)[i + 1],
        ) by {
            assert(rest.push(node)[i] == stack.push(node)[i + 1]);
            assert(rest.push(node)[i + 1] == stack.push(node)[i + 2]);
        }
        lemma_cycle_path(tasks, rest, node);
    }
}

/// The members of a chain of waiting tasks that planning can reach.
pub open spec fn is_waiting_chain(
    tasks: Tasks,
    universe: Seq<Seq<char>>,
    stack: Seq<Seq<char>>,
) -> bool {
    &&& stack.no_duplicates()
    &&& is_chain(tasks, stack)
    &&& forall|i: int| 0 <= i < stack.len() ==> universe.contains(#[trigger] stack[i])
}

/// A cycle that planning reports is one: each task on the path depends on the
/// next, and the path ends where it begins.
pub proof fn law_reported_cycle_is_a_cycle(tasks: Tasks, root: Seq<char>, done: Seq<Seq<char>>)
    requires
        visited(tasks, root, done, seq![], depth_limit(tasks)) matches Err(
            ProjectFault::TaskCycle { .. },
        ),
    ensures
        visited(tasks, root, done, seq![], depth_limit(tasks)) matches Err(
            ProjectFault::TaskCycle { path },
        ) && is_cycle(tasks, path),
{
    let universe = mentioned(tasks).push(root);
    assert(universe[universe.len() - 1] == root);
    lemma_mentioned_is_closed(tasks, root);
    lemma_visit_cycle(tasks, universe, root, done, seq![], depth_limit(tasks));
}

/// Whether `universe` holds whatever its members depend on.
pub open spec fn is_closed(tasks: Tasks, universe: Seq<Seq<char>>) -> bool {
    forall|n: Seq<char>, d: Seq<char>|
        dependencies(tasks, n) is Ok && #[trigger] dependencies(tasks, n)->Ok_0.contains(d)
            ==> universe.contains(d)
}

pub proof fn lemma_mentioned_is_closed(tasks: Tasks, root: Seq<char>)
    ensures
        is_closed(tasks, mentioned(tasks).push(root)),
{
    let universe = mentioned(tasks).push(root);
    assert forall|n: Seq<char>, d: Seq<char>|
        dependencies(tasks, n) is Ok && #[trigger] dependencies(tasks, n)->Ok_0.contains(
            d,
        ) implies universe.contains(d) by {
        lemma_dependencies_mentioned(tasks, n);
        let k = choose|k: int| 0 <= k < mentioned(tasks).len() && mentioned(tasks)[k] == d;
        assert(universe[k] == d);
    }
}

proof fn lemma_visit_cycle(
    tasks: Tasks,
    universe: Seq<Seq<char>>,
    node: Seq<char>,
    done: Seq<Seq<char>>,
    stack: Seq<Seq<char>>,
    limit: nat,
)
    requires
        is_waiting_chain(tasks, universe, stack),
        is_chain(tasks, stack.push(node)),
        universe.contains(node),
        limit == universe.len() + 1 - stack.len(),
        is_closed(tasks, universe),
        visited(tasks, node, done, stack, limit) matches Err(ProjectFault::TaskCycle { .. }),
    ensures
        visited(tasks, node, done, stack, limit) matches Err(ProjectFault::TaskCycle { path })
            && is_cycle(tasks, path),
    decreases limit, 0nat,
{
    lemma_chain_bound(stack, universe);
    if stack.contains(node) {
        lemma_cycle_path(tasks, stack, node);
    } else {
        match dependencies(tasks, node) {
            Err(fault) => {
                lemma_dependencies_no_cycle(tasks, node);
            },
            Ok(needed) => {
                let waiting = stack.push(node);
                lemma_push_waiting(tasks, universe, stack, node);
                lemma_visit_all_cycle(
                    tasks,
                    universe,
                    node,
                    needed,
                    done,
                    waiting,
                    (limit - 1) as nat,
                );
            },
        }
    }
}

pub proof fn lemma_push_waiting(
    tasks: Tasks,
    universe: Seq<Seq<char>>,
    stack: Seq<Seq<char>>,
    node: Seq<char>,
)
    requires
        is_waiting_chain(tasks, universe, stack),
        is_chain(tasks, stack.push(node)),
        universe.contains(node),
        !stack.contains(node),
    ensures
        is_waiting_chain(tasks, universe, stack.push(node)),
{
    let waiting = stack.push(node);
    assert forall|i: int, j: int|
        0 <= i < waiting.len() && 0 <= j < waiting.len() && i != j implies waiting[i]
        != waiting[j] by {
        if i < stack.len() && j < stack.len() {
            assert(waiting[i] == stack[i] && waiting[j] == stack[j]);
        } else if i < stack.len() {
            assert(stack.contains(stack[i]));
        } else {
            assert(stack.contains(stack[j]));
        }
    }
}

pub proof fn lemma_chain_push(tasks: Tasks, stack: Seq<Seq<char>>, node: Seq<char>)
    requires
        is_chain(tasks, stack),
        stack.len() > 0,
        dependencies(tasks, stack.last()) is Ok,
        dependencies(tasks, stack.last())->Ok_0.contains(node),
    ensures
        is_chain(tasks, stack.push(node)),
{
    let longer = stack.push(node);
    assert forall|i: int| 0 <= i < longer.len() - 1 implies dependencies(
        tasks,
        #[trigger] longer[i],
    ) is Ok && dependencies(tasks, longer[i])->Ok_0.contains(longer[i + 1]) by {
        assert(longer[i] == stack[i]);
        if i < stack.len() - 1 {
            assert(longer[i + 1] == stack[i + 1]);
        }
    }
}

proof fn lemma_visit_all_cycle(
    tasks: Tasks,
    universe: Seq<Seq<char>>,
    parent: Seq<char>,
    nodes: Seq<Seq<char>>,
    done: Seq<Seq<char>>,
    stack: Seq<Seq<char>>,
    limit: nat,
)
    requires
        is_waiting_chain(tasks, universe, stack),
        stack.len() > 0,
        stack.last() == parent,
        dependencies(tasks, parent) is Ok,
        forall|i: int|
            0 <= i < nodes.len() ==> dependencies(tasks, parent)->Ok_0.contains(
                #[trigger] nodes[i],
            ),
        limit == universe.len() + 1 - stack.len(),
        is_closed(tasks, universe),
        visited_all(tasks, nodes, done, stack, limit) matches Err(ProjectFault::TaskCycle { .. }),
    ensures
        visited_all(tasks, nodes, done, stack, limit) matches Err(ProjectFault::TaskCycle { path })
            && is_cycle(tasks, path),
    decreases limit, nodes.len() + 1,
{
    let rest = nodes.drop_last();
    assert forall|i: int| 0 <= i < rest.len() implies dependencies(tasks, parent)->Ok_0.contains(
        #[trigger] rest[i],
    ) by {
        assert(rest[i] == nodes[i]);
    }
    match visited_all(tasks, rest, done, stack, limit) {
        Err(_) => {
            lemma_visit_all_cycle(tasks, universe, parent, rest, done, stack, limit);
        },
        Ok(order) => {
            let node = nodes.last();
            assert(node == nodes[nodes.len() - 1]);
            lemma_chain_push(tasks, stack, node);
            lemma_visit_cycle(tasks, universe, node, order, stack, limit);
        },
    }
}

proof fn lemma_ref_no_cycle(tasks: Tasks, current: Seq<char>, references: Seq<Seq<char>>)
    ensures
        !(resolved_refs(tasks, current, references) matches Err(ProjectFault::TaskCycle { .. })),
    decreases references.len(),
{
    if references.len() > 0 {
        lemma_ref_no_cycle(tasks, current, references.drop_last());
    }
}

proof fn lemma_dependencies_no_cycle(tasks: Tasks, node: Seq<char>)
    ensures
        !(dependencies(tasks, node) matches Err(ProjectFault::TaskCycle { .. })),
{
    if let Ok(task) = task_of(tasks, node) {
        lemma_ref_no_cycle(tasks, node, texts(task.depends_on@));
    }
}

} // verus!
