//! What planning a workspace promises: a plan holds what the selected tasks
//! need, and nothing else.

use vstd::prelude::*;

use crate::project::validate::Resolution;
use crate::text::split_once;
use crate::workspace::error::{Node, WorkspaceFault};
use crate::workspace::graph::{
    dependencies, depth_limit, is_chain, is_plan_order, law_plan_is_dependency_first, visited,
    visited_all, Scope,
};
use crate::workspace::planned::{planned_task, PlannedTaskView};
use crate::workspace::{
    node_lt, plan_of, planned_nodes, planned_tasks, requested_names, root_set, selected_packages,
    with_node, with_packages,
};

verus! {

/// Whether a name stands for the task: a qualified name for one task, any other
/// for the task of that name in each package.
pub open spec fn stands_for(packages: Seq<Seq<char>>, name: Seq<char>, node: Node) -> bool {
    match split_once(name, ":"@) {
        Some(named) => node == named,
        None => packages.contains(node.0) && node.1 == name,
    }
}

/// Whether one of `names` stands for the task.
pub open spec fn is_named(packages: Seq<Seq<char>>, names: Seq<Seq<char>>, node: Node) -> bool {
    exists|i: int| 0 <= i < names.len() && stands_for(packages, #[trigger] names[i], node)
}

/// Whether a chain of dependencies leads from one of `roots` to `node`.
pub open spec fn is_reached(scope: Scope, roots: Seq<Node>, node: Node) -> bool {
    exists|chain: Seq<Node>| #[trigger]
        is_chain(scope, chain) && chain.len() > 0 && roots.contains(chain[0]) && chain.last()
            == node
}

/// Whether `node` is named by one of `names`, or what is named depends on it,
/// over however many steps.
pub open spec fn is_needed(
    scope: Scope,
    packages: Seq<Seq<char>>,
    names: Seq<Seq<char>>,
    node: Node,
) -> bool {
    exists|chain: Seq<Node>| #[trigger]
        is_chain(scope, chain) && chain.len() > 0 && is_named(packages, names, chain[0])
            && chain.last() == node
}

proof fn lemma_reached_from_root(scope: Scope, roots: Seq<Node>, node: Node)
    requires
        roots.contains(node),
    ensures
        is_reached(scope, roots, node),
{
    assert(is_chain(scope, seq![node]));
    assert(seq![node].last() == node && seq![node][0] == node);
}

proof fn lemma_reached_from_dependency(scope: Scope, from: Node, node: Node)
    requires
        dependencies(scope, from) is Ok,
        is_reached(scope, dependencies(scope, from)->Ok_0, node),
    ensures
        is_reached(scope, seq![from], node),
{
    let needed = dependencies(scope, from)->Ok_0;
    let chain = choose|chain: Seq<Node>| #[trigger]
        is_chain(scope, chain) && chain.len() > 0 && needed.contains(chain[0]) && chain.last()
            == node;
    let longer = seq![from] + chain;
    assert forall|i: int| 0 <= i < longer.len() - 1 implies dependencies(
        scope,
        #[trigger] longer[i],
    ) is Ok && dependencies(scope, longer[i])->Ok_0.contains(longer[i + 1]) by {
        if i > 0 {
            assert(longer[i] == chain[i - 1] && longer[i + 1] == chain[i]);
        } else {
            assert(longer[1] == chain[0]);
        }
    }
    assert(is_chain(scope, longer));
    assert(seq![from][0] == from);
    assert(longer[0] == from && longer.last() == node);
}

proof fn lemma_reached_from_more(scope: Scope, roots: Seq<Node>, more: Seq<Node>, node: Node)
    requires
        is_reached(scope, roots, node),
        forall|r: Node| roots.contains(r) ==> #[trigger] more.contains(r),
    ensures
        is_reached(scope, more, node),
{
    let chain = choose|chain: Seq<Node>| #[trigger]
        is_chain(scope, chain) && chain.len() > 0 && roots.contains(chain[0]) && chain.last()
            == node;
    assert(more.contains(chain[0]));
}

/// Planning adds nothing that is not reached.
proof fn lemma_planned_is_reached(
    scope: Scope,
    nodes: Seq<Node>,
    done: Seq<Node>,
    stack: Seq<Node>,
    limit: nat,
    node: Node,
)
    requires
        visited_all(scope, nodes, done, stack, limit) is Ok,
        visited_all(scope, nodes, done, stack, limit)->Ok_0.contains(node),
        !done.contains(node),
    ensures
        is_reached(scope, nodes, node),
    decreases limit, nodes.len() + 1,
{
    if nodes.len() > 0 {
        let rest = nodes.drop_last();
        let middle = visited_all(scope, rest, done, stack, limit)->Ok_0;
        if middle.contains(node) {
            lemma_planned_is_reached(scope, rest, done, stack, limit, node);
            assert forall|r: Node| rest.contains(r) implies #[trigger] nodes.contains(r) by {
                let i = choose|i: int| 0 <= i < rest.len() && rest[i] == r;
                assert(nodes[i] == r);
            }
            lemma_reached_from_more(scope, rest, nodes, node);
        } else {
            lemma_visit_is_reached(scope, nodes.last(), middle, stack, limit, node);
            assert(nodes[nodes.len() - 1] == nodes.last());
            assert forall|r: Node| seq![nodes.last()].contains(r) implies
                #[trigger] nodes.contains(r) by {}
            lemma_reached_from_more(scope, seq![nodes.last()], nodes, node);
        }
    }
}

proof fn lemma_visit_is_reached(
    scope: Scope,
    from: Node,
    done: Seq<Node>,
    stack: Seq<Node>,
    limit: nat,
    node: Node,
)
    requires
        visited(scope, from, done, stack, limit) is Ok,
        visited(scope, from, done, stack, limit)->Ok_0.contains(node),
        !done.contains(node),
    ensures
        is_reached(scope, seq![from], node),
    decreases limit, 0nat,
{
    assert(seq![from][0] == from);
    if node == from {
        lemma_reached_from_root(scope, seq![from], node);
    } else {
        let needed = dependencies(scope, from)->Ok_0;
        let waiting = stack.push(from);
        let middle = visited_all(scope, needed, done, waiting, (limit - 1) as nat)->Ok_0;
        let k = choose|k: int| 0 <= k < middle.push(from).len() && middle.push(from)[k] == node;
        assert(middle[k] == node);
        lemma_planned_is_reached(scope, needed, done, waiting, (limit - 1) as nat, node);
        lemma_reached_from_dependency(scope, from, node);
    }
}

/// A plan holds whatever it reaches.
proof fn lemma_reached_is_planned(scope: Scope, order: Seq<Node>, chain: Seq<Node>, k: int)
    requires
        is_plan_order(scope, order),
        is_chain(scope, chain),
        0 <= k < chain.len(),
        order.contains(chain[0]),
    ensures
        order.contains(chain[k]),
    decreases k,
{
    if k > 0 {
        lemma_reached_is_planned(scope, order, chain, k - 1);
        let i = choose|i: int| 0 <= i < order.len() && order[i] == chain[k - 1];
        assert(dependencies(scope, order[i])->Ok_0.contains(chain[k]));
        let j = choose|j: int| 0 <= j < order.take(i).len() && order.take(i)[j] == chain[k];
        assert(order[j] == chain[k]);
    }
}

proof fn lemma_contains_first<T>(first: T, rest: Seq<T>, x: T)
    ensures
        (seq![first] + rest).contains(x) <==> x == first || rest.contains(x),
{
    let all = seq![first] + rest;
    assert(all[0] == first);
    if rest.contains(x) {
        let k = choose|k: int| 0 <= k < rest.len() && rest[k] == x;
        assert(all[k + 1] == x);
    }
    if all.contains(x) {
        let k = choose|k: int| 0 <= k < all.len() && all[k] == x;
        if k > 0 {
            assert(rest[k - 1] == x);
        }
    }
}

proof fn lemma_with_node(set: Seq<Node>, node: Node, x: Node)
    ensures
        with_node(set, node).contains(x) <==> x == node || set.contains(x),
    decreases set.len(),
{
    if set.len() == 0 {
        assert(seq![node][0] == node);
    } else if set[0] == node {
    } else if node_lt(node, set[0]) {
        lemma_contains_first(node, set, x);
    } else {
        let rest = set.drop_first();
        lemma_with_node(rest, node, x);
        lemma_contains_first(set[0], with_node(rest, node), x);
        lemma_contains_first(set[0], rest, x);
        assert(seq![set[0]] + rest =~= set);
    }
}

proof fn lemma_with_packages(
    set: Seq<Node>,
    packages: Seq<Seq<char>>,
    task: Seq<char>,
    x: Node,
)
    ensures
        with_packages(set, packages, task).contains(x) <==> set.contains(x) || (packages.contains(
            x.0,
        ) && x.1 == task),
    decreases packages.len(),
{
    if packages.len() > 0 {
        let rest = packages.drop_last();
        lemma_with_packages(set, rest, task, x);
        lemma_with_node(with_packages(set, rest, task), (packages.last(), task), x);
        assert(packages[packages.len() - 1] == packages.last());
        if rest.contains(x.0) {
            let k = choose|k: int| 0 <= k < rest.len() && rest[k] == x.0;
            assert(packages[k] == x.0);
        }
        if packages.contains(x.0) && x.0 != packages.last() {
            let k = choose|k: int| 0 <= k < packages.len() && packages[k] == x.0;
            assert(rest[k] == x.0);
        }
    }
}

proof fn lemma_root_set_is_named(
    selected: Option<Seq<char>>,
    packages: Seq<Seq<char>>,
    names: Seq<Seq<char>>,
    node: Node,
)
    requires
        root_set(selected, packages, names) is Ok,
    ensures
        root_set(selected, packages, names)->Ok_0.contains(node) <==> is_named(
            packages,
            names,
            node,
        ),
    decreases names.len(),
{
    if names.len() > 0 {
        let rest = names.drop_last();
        lemma_root_set_is_named(selected, packages, rest, node);
        let set = root_set(selected, packages, rest)->Ok_0;
        match split_once(names.last(), ":"@) {
            Some(named) => {
                lemma_with_node(set, named, node);
            },
            None => {
                lemma_with_packages(set, packages, names.last(), node);
            },
        }
        assert(names[names.len() - 1] == names.last());
        if is_named(packages, rest, node) {
            let i = choose|i: int|
                0 <= i < rest.len() && stands_for(packages, #[trigger] rest[i], node);
            assert(names[i] == rest[i]);
        }
        if is_named(packages, names, node) {
            let i = choose|i: int|
                0 <= i < names.len() && stands_for(packages, #[trigger] names[i], node);
            if i < rest.len() {
                assert(rest[i] == names[i]);
            }
        }
    }
}

proof fn lemma_planned_one_by_one(
    scope: Scope,
    directories: Seq<(Seq<char>, Resolution)>,
    order: Seq<Node>,
)
    requires
        planned_tasks(scope, directories, order) is Ok,
    ensures
        planned_tasks(scope, directories, order)->Ok_0.len() == order.len(),
        forall|k: int|
            0 <= k < order.len() ==> planned_task(scope, directories, #[trigger] order[k]) == Ok::<
                PlannedTaskView,
                WorkspaceFault,
            >(planned_tasks(scope, directories, order)->Ok_0[k]),
    decreases order.len(),
{
    if order.len() > 0 {
        let front = order.drop_last();
        lemma_planned_one_by_one(scope, directories, front);
        let all = planned_tasks(scope, directories, order)->Ok_0;
        let earlier = planned_tasks(scope, directories, front)->Ok_0;
        assert forall|k: int| 0 <= k < order.len() implies planned_task(
            scope,
            directories,
            #[trigger] order[k],
        ) == Ok::<PlannedTaskView, WorkspaceFault>(all[k]) by {
            if k < front.len() {
                assert(front[k] == order[k]);
                assert(all[k] == earlier[k]);
            }
        }
    }
}

/// A plan holds exactly the tasks that are named and those that they need: one
/// planned task for each.
pub proof fn law_a_plan_holds_what_is_needed(
    scope: Scope,
    directories: Seq<(Seq<char>, Resolution)>,
    selected: Option<Seq<char>>,
    pipeline: Option<Seq<char>>,
    requested: Seq<Seq<char>>,
    node: Node,
)
    requires
        plan_of(scope, directories, selected, pipeline, requested) is Ok,
    ensures
        ({
            let plan = plan_of(scope, directories, selected, pipeline, requested)->Ok_0;
            let order = planned_nodes(scope, selected, pipeline, requested)->Ok_0;
            &&& plan.len() == order.len()
            &&& order.no_duplicates()
            &&& forall|k: int|
                0 <= k < order.len() ==> planned_task(scope, directories, #[trigger] order[k])
                    == Ok::<PlannedTaskView, WorkspaceFault>(plan[k])
            &&& order.contains(node) <==> is_needed(
                scope,
                selected_packages(scope, selected)->Ok_0,
                requested_names(scope, pipeline, requested)->Ok_0,
                node,
            )
        }),
{
    let names = requested_names(scope, pipeline, requested)->Ok_0;
    let packages = selected_packages(scope, selected)->Ok_0;
    let roots = root_set(selected, packages, names)->Ok_0;
    let limit = depth_limit(scope);
    let order = planned_nodes(scope, selected, pipeline, requested)->Ok_0;
    lemma_planned_one_by_one(scope, directories, order);
    assert(is_plan_order(scope, seq![]));
    law_plan_is_dependency_first(scope, roots, seq![], seq![], limit);
    if order.contains(node) {
        lemma_planned_is_reached(scope, roots, seq![], seq![], limit, node);
        let chain = choose|chain: Seq<Node>| #[trigger]
            is_chain(scope, chain) && chain.len() > 0 && roots.contains(chain[0]) && chain.last()
                == node;
        lemma_root_set_is_named(selected, packages, names, chain[0]);
    }
    if is_needed(scope, packages, names, node) {
        let chain = choose|chain: Seq<Node>| #[trigger]
            is_chain(scope, chain) && chain.len() > 0 && is_named(packages, names, chain[0])
                && chain.last() == node;
        lemma_root_set_is_named(selected, packages, names, chain[0]);
        let i = choose|i: int| 0 <= i < roots.len() && roots[i] == chain[0];
        assert(order.contains(roots[i]));
        lemma_reached_is_planned(scope, order, chain, chain.len() - 1);
    }
}

} // verus!
