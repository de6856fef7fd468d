//! What planning promises: every plan can be scheduled, every task of it can be
//! run, and which tasks of it are finalizers.

use vstd::prelude::*;

use crate::config::MonoConfig;
use crate::map::{law_insert_lookup, lemma_lookup_some, lookup, sorted};
use crate::path::{is_absolute, is_below, join_path, law_below_an_absolute_path_is_absolute};
use crate::project::error::{node_ids, ProjectFault};
use crate::project::graph::{depth_limit, is_plan_order, law_plan_is_dependency_first};
use crate::project::graph::{
    dependencies, is_chain, root_ids, root_set, task_of, visited, visited_all, with_ids, IdSet,
    Tasks,
};
use crate::project::matrix::{base_name, Dimensions};
use crate::project::planned::{interpolated_list, plan_view, planned_task};
use crate::project::planned::{PlannedTask, PlannedTaskView};
use crate::project::validate::Resolution;
use crate::project::{
    declared_task_problem, described, edges_of, finalized, first_problem, load_problem,
};
use crate::project::{plan_of, planned_ids, planned_tasks, FinalizedOrder, ProjectView};
use crate::project::requested_names;
use crate::runner::machine::is_runnable;
use crate::scheduler::state::plan_ids;
use crate::scheduler::transition::{
    finalizers_stand_apart, is_dependency_first, is_planned_before,
};
use crate::text::texts;

verus! {

proof fn lemma_finalized_order(tasks: Tasks, names: Seq<Seq<char>>, order: Seq<Seq<char>>)
    requires
        is_plan_order(tasks, order),
        finalized(tasks, names, order) is Ok,
    ensures
        is_plan_order(tasks, finalized(tasks, names, order)->Ok_0.order),
    decreases names.len(),
{
    if names.len() > 0 {
        lemma_finalized_order(tasks, names.drop_last(), order);
        let earlier = finalized(tasks, names.drop_last(), order)->Ok_0;
        let ids = root_ids(tasks, names.last())->Ok_0;
        law_plan_is_dependency_first(tasks, ids, earlier.order, seq![], depth_limit(tasks));
    }
}

/// The order of a plan, and how many of its tasks come before the finalizers.
pub open spec fn ordered(
    project: ProjectView,
    pipeline: Option<Seq<char>>,
    requested: Seq<Seq<char>>,
) -> (FinalizedOrder, nat) {
    let order = planned_ids(project, pipeline, requested)->Ok_0;
    let names = if requested.len() > 0 {
        seq![]
    } else {
        texts(
            lookup(
                project.pipelines,
                crate::project::chosen_pipeline(project, pipeline),
            )->0.finally@,
        )
    };
    (finalized(project.tasks, names, order)->Ok_0, order.len())
}

proof fn lemma_planned_one_by_one(
    project: ProjectView,
    directories: Seq<(Seq<char>, Resolution)>,
    plan: FinalizedOrder,
    normal: nat,
    count: nat,
)
    requires
        planned_tasks(project, directories, plan, normal, count) is Ok,
    ensures
        planned_tasks(project, directories, plan, normal, count)->Ok_0.len() == count,
        forall|k: int|
            0 <= k < count ==> planned_task(
                project,
                directories,
                plan.order[k],
                k >= normal || plan.roots.contains(plan.order[k]),
            ) == Ok::<PlannedTaskView, ProjectFault>(
                #[trigger] planned_tasks(project, directories, plan, normal, count)->Ok_0[k],
            ),
    decreases count,
{
    if count > 0 {
        lemma_planned_one_by_one(project, directories, plan, normal, (count - 1) as nat);
        let earlier = planned_tasks(
            project,
            directories,
            plan,
            normal,
            (count - 1) as nat,
        )->Ok_0;
        let all = planned_tasks(project, directories, plan, normal, count)->Ok_0;
        assert forall|k: int| 0 <= k < count implies planned_task(
            project,
            directories,
            plan.order[k],
            k >= normal || plan.roots.contains(plan.order[k]),
        ) == Ok::<PlannedTaskView, ProjectFault>(#[trigger] all[k]) by {
            if k < count - 1 {
                assert(all[k] == earlier[k]);
            }
        }
    }
}

/// The tasks of a plan, each from its place in the order.
proof fn lemma_plan_parts(
    project: ProjectView,
    directories: Seq<(Seq<char>, Resolution)>,
    pipeline: Option<Seq<char>>,
    requested: Seq<Seq<char>>,
)
    requires
        plan_of(project, directories, pipeline, requested) is Ok,
    ensures
        ({
            let plan = plan_of(project, directories, pipeline, requested)->Ok_0;
            let (order, normal) = ordered(project, pipeline, requested);
            &&& plan.len() == order.order.len()
            &&& is_plan_order(project.tasks, order.order)
            &&& forall|k: int|
                0 <= k < plan.len() ==> planned_task(
                    project,
                    directories,
                    order.order[k],
                    k >= normal || order.roots.contains(order.order[k]),
                ) == Ok::<PlannedTaskView, ProjectFault>(#[trigger] plan[k])
        }),
{
    let names = requested_names(project, pipeline, requested)->Ok_0;
    let roots = crate::map::keys(root_set(project.tasks, names)->Ok_0);
    let limit = depth_limit(project.tasks);
    assert(is_plan_order(project.tasks, seq![]));
    law_plan_is_dependency_first(project.tasks, roots, seq![], seq![], limit);
    assert(planned_ids(project, pipeline, requested)->Ok_0 == visited_all(
        project.tasks,
        roots,
        seq![],
        seq![],
        limit,
    )->Ok_0);
    let last = if requested.len() > 0 {
        seq![]
    } else {
        texts(
            lookup(
                project.pipelines,
                crate::project::chosen_pipeline(project, pipeline),
            )->0.finally@,
        )
    };
    lemma_finalized_order(
        project.tasks,
        last,
        planned_ids(project, pipeline, requested)->Ok_0,
    );
    let (order, normal) = ordered(project, pipeline, requested);
    lemma_planned_one_by_one(project, directories, order, normal, order.order.len());
}

/// A plan names no task twice, puts every dependency first, and caches no
/// finalizer; and where its finalizers come last, no other task waits for one.
pub proof fn law_plans_can_be_scheduled(
    project: ProjectView,
    directories: Seq<(Seq<char>, Resolution)>,
    pipeline: Option<Seq<char>>,
    requested: Seq<Seq<char>>,
    plan: Seq<PlannedTask>,
)
    requires
        plan_of(project, directories, pipeline, requested) == Ok::<
            Seq<PlannedTaskView>,
            ProjectFault,
        >(plan_view(plan)),
    ensures
        plan_ids(plan).no_duplicates(),
        is_dependency_first(plan),
        forall|c: int| 0 <= c < plan.len() && (#[trigger] plan[c]).finalizer ==> !plan[c].cache,
        (forall|a: int, b: int|
            0 <= a < b < plan.len() && (#[trigger] plan[a]).finalizer ==> (
            #[trigger] plan[b]).finalizer) ==> finalizers_stand_apart(plan),
{
    lemma_plan_parts(project, directories, pipeline, requested);
    let order = ordered(project, pipeline, requested).0.order;
    let views = plan_view(plan);
    assert forall|k: int| 0 <= k < plan.len() implies plan_ids(plan)[k] == order[k] by {
        assert(views[k].id == order[k]);
    }
    assert forall|a: int, b: int|
        0 <= a < plan.len() && 0 <= b < plan.len() && a != b implies plan_ids(plan)[a] != plan_ids(
        plan,
    )[b] by {
        assert(plan_ids(plan)[a] == order[a] && plan_ids(plan)[b] == order[b]);
    }
    assert forall|c: int, j: int|
        0 <= c < plan.len() && 0 <= j < plan[c].depends_on@.len() implies is_planned_before(
        plan,
        c,
        (#[trigger] plan[c].depends_on@[j]).id@,
    ) by {
        assert(views[c].depends_on == node_ids(plan[c].depends_on@));
        let wanted = plan[c].depends_on@[j].id@;
        assert(views[c].depends_on[j] == wanted);
        assert(dependencies(project.tasks, order[c]) == Ok::<Seq<Seq<char>>, ProjectFault>(
            views[c].depends_on,
        ));
        assert(dependencies(project.tasks, order[c])->Ok_0.contains(wanted));
        let d = choose|d: int| 0 <= d < order.take(c).len() && order.take(c)[d] == wanted;
        assert(plan_ids(plan)[d] == order[d]);
        assert(plan[d].id@ == wanted);
    }
    assert forall|c: int| 0 <= c < plan.len() && (#[trigger] plan[c]).finalizer implies
        !plan[c].cache by {
        assert(views[c].finalizer == plan[c].finalizer && views[c].cache == plan[c].cache);
    }
    if forall|a: int, b: int|
        0 <= a < b < plan.len() && (#[trigger] plan[a]).finalizer ==> (
        #[trigger] plan[b]).finalizer {
        assert forall|c: int, j: int, d: int|
            0 <= c < plan.len() && 0 <= d < plan.len() && 0 <= j < plan[c].depends_on@.len() && (
            #[trigger] plan[d]).id@ == (#[trigger] plan[c].depends_on@[j]).id@
                && plan[d].finalizer implies plan[c].finalizer by {
            let e = choose|e: int|
                0 <= e < c && (#[trigger] plan[e]).id@ == plan[c].depends_on@[j].id@;
            assert(plan_ids(plan)[e] == plan_ids(plan)[d]);
        }
    }
}

proof fn lemma_interpolated_length(values: Seq<Seq<char>>, dimensions: Dimensions)
    requires
        interpolated_list(values, dimensions) is Ok,
    ensures
        interpolated_list(values, dimensions)->Ok_0.len() == values.len(),
    decreases values.len(),
{
    if values.len() > 0 {
        lemma_interpolated_length(values.drop_last(), dimensions);
    }
}

proof fn lemma_no_problem<F>(count: nat, problem: spec_fn(int) -> Option<F>, k: int)
    requires
        first_problem(count, problem) is None,
        0 <= k < count,
    ensures
        problem(k) is None,
    decreases count,
{
    if k < count - 1 {
        lemma_no_problem((count - 1) as nat, problem, k);
    }
}

/// Every task that is planned for a project that loaded can be run: it has a
/// command, some time and some room for output, and runs below the root.
pub proof fn law_planned_tasks_are_runnable(
    root: Seq<char>,
    config: MonoConfig,
    directories: Seq<(Seq<char>, Resolution)>,
    pipeline: Option<Seq<char>>,
    requested: Seq<Seq<char>>,
)
    requires
        is_absolute(root),
        load_problem(root, config, directories) is None,
        plan_of(described(root, config), directories, pipeline, requested) is Ok,
    ensures
        ({
            let plan = plan_of(described(root, config), directories, pipeline, requested)->Ok_0;
            forall|k: int|
                0 <= k < plan.len() ==> is_runnable(#[trigger] plan[k]) && plan[k].command.len()
                    > 0
        }),
{
    let project = described(root, config);
    let tasks = config.tasks@;
    let plan = plan_of(project, directories, pipeline, requested)->Ok_0;
    lemma_plan_parts(project, directories, pipeline, requested);
    let order = ordered(project, pipeline, requested).0.order;
    let path = crate::path::join_path(root, crate::config::CONFIG_FILE_NAME@);
    assert forall|k: int| 0 <= k < plan.len() implies is_runnable(#[trigger] plan[k])
        && plan[k].command.len() > 0 by {
        let task = task_of(tasks, order[k])->Ok_0;
        let name = base_name(order[k])->0;
        lemma_lookup_some(tasks, name);
        let i = choose|i: int|
            0 <= i < tasks.len() && #[trigger] tasks[i] == (name, lookup(tasks, name)->0);
        lemma_no_problem(
            tasks.len(),
            declared_task_problem(path, directories, root, tasks),
            i,
        );
        assert(tasks[i].1 == task);
        let dimensions = crate::project::matrix::dimensions_of(order[k])->0;
        lemma_interpolated_length(texts(task.command@), dimensions);
        law_below_an_absolute_path_is_absolute(plan[k].cwd, root);
    }
}

/// Every task is planned for the root of its project, in an absolute directory
/// below it: one that resolving reported, and so free of links wherever that
/// follows them.
pub proof fn law_planned_directories_are_resolved(
    project: ProjectView,
    directories: Seq<(Seq<char>, Resolution)>,
    pipeline: Option<Seq<char>>,
    requested: Seq<Seq<char>>,
    k: int,
) -> (declared: Seq<char>)
    requires
        is_absolute(project.root),
        plan_of(project, directories, pipeline, requested) is Ok,
        0 <= k < plan_of(project, directories, pipeline, requested)->Ok_0.len(),
    ensures
        ({
            let task = plan_of(project, directories, pipeline, requested)->Ok_0[k];
            &&& task.root == project.root
            &&& is_absolute(task.cwd)
            &&& is_below(task.cwd, task.root)
            &&& lookup(directories, join_path(project.root, declared)) matches Some(
                Resolution::Directory(found),
            ) && found@ == task.cwd
        }),
{
    let plan = plan_of(project, directories, pipeline, requested)->Ok_0;
    lemma_plan_parts(project, directories, pipeline, requested);
    let id = ordered(project, pipeline, requested).0.order[k];
    let task = task_of(project.tasks, id)->Ok_0;
    let dimensions = crate::project::matrix::dimensions_of(id)->0;
    assert(plan[k].id == id);
    law_below_an_absolute_path_is_absolute(plan[k].cwd, project.root);
    crate::project::matrix::interpolated(
        crate::project::planned::declared_cwd(task),
        dimensions,
    )->Ok_0
}

/// Whether `id` is an instance that one of `names` stands for.
pub open spec fn is_named(tasks: Tasks, names: Seq<Seq<char>>, id: Seq<char>) -> bool {
    exists|i: int|
        0 <= i < names.len() && root_ids(tasks, #[trigger] names[i]) is Ok && root_ids(
            tasks,
            names[i],
        )->Ok_0.contains(id)
}

/// Whether a chain of dependencies leads from one of `roots` to `id`.
pub open spec fn is_reached(tasks: Tasks, roots: Seq<Seq<char>>, id: Seq<char>) -> bool {
    exists|chain: Seq<Seq<char>>| #[trigger]
        is_chain(tasks, chain) && chain.len() > 0 && roots.contains(chain[0]) && chain.last() == id
}

/// Whether `id` is named by one of `names`, or what is named depends on it,
/// over however many steps.
pub open spec fn is_needed(tasks: Tasks, names: Seq<Seq<char>>, id: Seq<char>) -> bool {
    exists|chain: Seq<Seq<char>>| #[trigger]
        is_chain(tasks, chain) && chain.len() > 0 && is_named(tasks, names, chain[0])
            && chain.last() == id
}

proof fn lemma_reached_from_root(tasks: Tasks, roots: Seq<Seq<char>>, id: Seq<char>)
    requires
        roots.contains(id),
    ensures
        is_reached(tasks, roots, id),
{
    assert(is_chain(tasks, seq![id]));
    assert(seq![id].last() == id && seq![id][0] == id);
}

proof fn lemma_reached_from_dependency(
    tasks: Tasks,
    node: Seq<char>,
    roots: Seq<Seq<char>>,
    id: Seq<char>,
)
    requires
        dependencies(tasks, node) is Ok,
        is_reached(tasks, dependencies(tasks, node)->Ok_0, id),
        roots.contains(node),
    ensures
        is_reached(tasks, roots, id),
{
    let needed = dependencies(tasks, node)->Ok_0;
    let chain = choose|chain: Seq<Seq<char>>| #[trigger]
        is_chain(tasks, chain) && chain.len() > 0 && needed.contains(chain[0]) && chain.last()
            == id;
    let longer = seq![node] + chain;
    assert forall|i: int| 0 <= i < longer.len() - 1 implies dependencies(
        tasks,
        #[trigger] longer[i],
    ) is Ok && dependencies(tasks, longer[i])->Ok_0.contains(longer[i + 1]) by {
        if i > 0 {
            assert(longer[i] == chain[i - 1] && longer[i + 1] == chain[i]);
        } else {
            assert(longer[1] == chain[0]);
        }
    }
    assert(is_chain(tasks, longer));
    assert(longer[0] == node && longer.last() == id);
}

proof fn lemma_reached_from_more(
    tasks: Tasks,
    roots: Seq<Seq<char>>,
    more: Seq<Seq<char>>,
    id: Seq<char>,
)
    requires
        is_reached(tasks, roots, id),
        forall|r: Seq<char>| roots.contains(r) ==> #[trigger] more.contains(r),
    ensures
        is_reached(tasks, more, id),
{
    let chain = choose|chain: Seq<Seq<char>>| #[trigger]
        is_chain(tasks, chain) && chain.len() > 0 && roots.contains(chain[0]) && chain.last()
            == id;
    assert(more.contains(chain[0]));
}

/// Planning adds nothing that is not reached.
proof fn lemma_planned_is_reached(
    tasks: Tasks,
    nodes: Seq<Seq<char>>,
    done: Seq<Seq<char>>,
    stack: Seq<Seq<char>>,
    limit: nat,
    id: Seq<char>,
)
    requires
        visited_all(tasks, nodes, done, stack, limit) is Ok,
        visited_all(tasks, nodes, done, stack, limit)->Ok_0.contains(id),
        !done.contains(id),
    ensures
        is_reached(tasks, nodes, id),
    decreases limit, nodes.len() + 1,
{
    if nodes.len() > 0 {
        let rest = nodes.drop_last();
        let middle = visited_all(tasks, rest, done, stack, limit)->Ok_0;
        if middle.contains(id) {
            lemma_planned_is_reached(tasks, rest, done, stack, limit, id);
            assert forall|r: Seq<char>| rest.contains(r) implies #[trigger] nodes.contains(r) by {
                let i = choose|i: int| 0 <= i < rest.len() && rest[i] == r;
                assert(nodes[i] == r);
            }
            lemma_reached_from_more(tasks, rest, nodes, id);
        } else {
            lemma_visit_is_reached(tasks, nodes.last(), middle, stack, limit, id);
            assert(nodes[nodes.len() - 1] == nodes.last());
            assert forall|r: Seq<char>| seq![nodes.last()].contains(r) implies
                #[trigger] nodes.contains(r) by {}
            lemma_reached_from_more(tasks, seq![nodes.last()], nodes, id);
        }
    }
}

proof fn lemma_visit_is_reached(
    tasks: Tasks,
    node: Seq<char>,
    done: Seq<Seq<char>>,
    stack: Seq<Seq<char>>,
    limit: nat,
    id: Seq<char>,
)
    requires
        visited(tasks, node, done, stack, limit) is Ok,
        visited(tasks, node, done, stack, limit)->Ok_0.contains(id),
        !done.contains(id),
    ensures
        is_reached(tasks, seq![node], id),
    decreases limit, 0nat,
{
    assert(seq![node][0] == node);
    if id == node {
        lemma_reached_from_root(tasks, seq![node], id);
    } else {
        let needed = dependencies(tasks, node)->Ok_0;
        let waiting = stack.push(node);
        let middle = visited_all(tasks, needed, done, waiting, (limit - 1) as nat)->Ok_0;
        let k = choose|k: int| 0 <= k < middle.push(node).len() && middle.push(node)[k] == id;
        assert(middle[k] == id);
        lemma_planned_is_reached(tasks, needed, done, waiting, (limit - 1) as nat, id);
        lemma_reached_from_dependency(tasks, node, seq![node], id);
    }
}

/// A plan holds whatever it reaches.
proof fn lemma_reached_is_planned(
    tasks: Tasks,
    order: Seq<Seq<char>>,
    chain: Seq<Seq<char>>,
    k: int,
)
    requires
        is_plan_order(tasks, order),
        is_chain(tasks, chain),
        0 <= k < chain.len(),
        order.contains(chain[0]),
    ensures
        order.contains(chain[k]),
    decreases k,
{
    if k > 0 {
        lemma_reached_is_planned(tasks, order, chain, k - 1);
        let i = choose|i: int| 0 <= i < order.len() && order[i] == chain[k - 1];
        assert(dependencies(tasks, order[i])->Ok_0.contains(chain[k]));
        let j = choose|j: int| 0 <= j < order.take(i).len() && order.take(i)[j] == chain[k];
        assert(order[j] == chain[k]);
    }
}

proof fn lemma_with_ids(set: IdSet, ids: Seq<Seq<char>>, id: Seq<char>)
    requires
        sorted(set),
    ensures
        sorted(with_ids(set, ids)),
        lookup(with_ids(set, ids), id) is Some <==> lookup(set, id) is Some || ids.contains(id),
    decreases ids.len(),
{
    if ids.len() > 0 {
        let rest = ids.drop_last();
        lemma_with_ids(set, rest, id);
        law_insert_lookup(with_ids(set, rest), ids.last(), true);
        assert(ids[ids.len() - 1] == ids.last());
        if rest.contains(id) {
            let i = choose|i: int| 0 <= i < rest.len() && rest[i] == id;
            assert(ids[i] == id);
        }
        if ids.contains(id) && id != ids.last() {
            let i = choose|i: int| 0 <= i < ids.len() && ids[i] == id;
            assert(rest[i] == id);
        }
    }
}

proof fn lemma_named_last(tasks: Tasks, names: Seq<Seq<char>>, id: Seq<char>)
    requires
        names.len() > 0,
        root_ids(tasks, names.last()) is Ok,
    ensures
        is_named(tasks, names, id) <==> is_named(tasks, names.drop_last(), id) || root_ids(
            tasks,
            names.last(),
        )->Ok_0.contains(id),
{
    let rest = names.drop_last();
    assert(names[names.len() - 1] == names.last());
    if is_named(tasks, rest, id) {
        let i = choose|i: int|
            0 <= i < rest.len() && root_ids(tasks, #[trigger] rest[i]) is Ok && root_ids(
                tasks,
                rest[i],
            )->Ok_0.contains(id);
        assert(names[i] == rest[i]);
    }
    if is_named(tasks, names, id) {
        let i = choose|i: int|
            0 <= i < names.len() && root_ids(tasks, #[trigger] names[i]) is Ok && root_ids(
                tasks,
                names[i],
            )->Ok_0.contains(id);
        if i < rest.len() {
            assert(rest[i] == names[i]);
        }
    }
}

proof fn lemma_root_set_is_named(tasks: Tasks, names: Seq<Seq<char>>, id: Seq<char>)
    requires
        root_set(tasks, names) is Ok,
    ensures
        sorted(root_set(tasks, names)->Ok_0),
        lookup(root_set(tasks, names)->Ok_0, id) is Some <==> is_named(tasks, names, id),
    decreases names.len(),
{
    if names.len() > 0 {
        lemma_root_set_is_named(tasks, names.drop_last(), id);
        lemma_with_ids(
            root_set(tasks, names.drop_last())->Ok_0,
            root_ids(tasks, names.last())->Ok_0,
            id,
        );
        lemma_named_last(tasks, names, id);
    }
}

/// The plan holds what the named tasks need, and nothing else.
proof fn lemma_planned_is_needed(
    project: ProjectView,
    pipeline: Option<Seq<char>>,
    requested: Seq<Seq<char>>,
    id: Seq<char>,
)
    requires
        planned_ids(project, pipeline, requested) is Ok,
    ensures
        planned_ids(project, pipeline, requested)->Ok_0.contains(id) <==> is_needed(
            project.tasks,
            requested_names(project, pipeline, requested)->Ok_0,
            id,
        ),
{
    let tasks = project.tasks;
    let names = requested_names(project, pipeline, requested)->Ok_0;
    let set = root_set(tasks, names)->Ok_0;
    let roots = crate::map::keys(set);
    let limit = depth_limit(tasks);
    let order = visited_all(tasks, roots, seq![], seq![], limit)->Ok_0;
    assert(is_plan_order(tasks, seq![]));
    law_plan_is_dependency_first(tasks, roots, seq![], seq![], limit);
    assert forall|r: Seq<char>| #[trigger] roots.contains(r) <==> is_named(tasks, names, r) by {
        lemma_root_set_is_named(tasks, names, r);
        lemma_lookup_some(set, r);
        if roots.contains(r) {
            let i = choose|i: int| 0 <= i < roots.len() && roots[i] == r;
            assert(set[i].0 == r);
        }
        if lookup(set, r) is Some {
            let i = choose|i: int| 0 <= i < set.len() && #[trigger] set[i].0 == r;
            assert(roots[i] == r);
        }
    }
    if order.contains(id) {
        lemma_planned_is_reached(tasks, roots, seq![], seq![], limit, id);
        let chain = choose|chain: Seq<Seq<char>>| #[trigger]
            is_chain(tasks, chain) && chain.len() > 0 && roots.contains(chain[0]) && chain.last()
                == id;
        assert(is_named(tasks, names, chain[0]));
    }
    if is_needed(tasks, names, id) {
        let chain = choose|chain: Seq<Seq<char>>| #[trigger]
            is_chain(tasks, chain) && chain.len() > 0 && is_named(tasks, names, chain[0])
                && chain.last() == id;
        assert(roots.contains(chain[0]));
        let i = choose|i: int| 0 <= i < roots.len() && roots[i] == chain[0];
        assert(order.contains(roots[i]));
        lemma_reached_is_planned(tasks, order, chain, chain.len() - 1);
    }
}

proof fn lemma_finalized_parts(
    tasks: Tasks,
    names: Seq<Seq<char>>,
    order: Seq<Seq<char>>,
    id: Seq<char>,
)
    requires
        is_plan_order(tasks, order),
        finalized(tasks, names, order) is Ok,
    ensures
        order.is_prefix_of(finalized(tasks, names, order)->Ok_0.order),
        finalized(tasks, names, order)->Ok_0.roots.contains(id) <==> is_named(tasks, names, id),
    decreases names.len(),
{
    if names.len() > 0 {
        let rest = names.drop_last();
        lemma_finalized_parts(tasks, rest, order, id);
        lemma_finalized_order(tasks, rest, order);
        let earlier = finalized(tasks, rest, order)->Ok_0;
        let ids = root_ids(tasks, names.last())->Ok_0;
        law_plan_is_dependency_first(tasks, ids, earlier.order, seq![], depth_limit(tasks));
        lemma_named_last(tasks, names, id);
        let longer = finalized(tasks, names, order)->Ok_0;
        assert forall|j: int| 0 <= j < order.len() implies longer.order[j] == order[j] by {
            assert(earlier.order.subrange(0, order.len() as int)[j] == order[j]);
            assert(longer.order.subrange(0, earlier.order.len() as int)[j] == earlier.order[j]);
        }
        assert(longer.order.subrange(0, order.len() as int) =~= order);
        let all = earlier.roots + ids;
        if earlier.roots.contains(id) {
            let i = choose|i: int| 0 <= i < earlier.roots.len() && earlier.roots[i] == id;
            assert(all[i] == id);
        }
        if ids.contains(id) {
            let i = choose|i: int| 0 <= i < ids.len() && ids[i] == id;
            assert(all[earlier.roots.len() + i] == id);
        }
        if all.contains(id) {
            let i = choose|i: int| 0 <= i < all.len() && all[i] == id;
            if i < earlier.roots.len() {
                assert(earlier.roots[i] == id);
            } else {
                assert(ids[i - earlier.roots.len()] == id);
            }
        }
    } else {
        assert(order.subrange(0, order.len() as int) =~= order);
    }
}

/// The finalizers add to a plan what they need, and nothing else.
proof fn lemma_finalized_is_needed(
    tasks: Tasks,
    names: Seq<Seq<char>>,
    order: Seq<Seq<char>>,
    id: Seq<char>,
)
    requires
        is_plan_order(tasks, order),
        finalized(tasks, names, order) is Ok,
    ensures
        finalized(tasks, names, order)->Ok_0.order.contains(id) <==> order.contains(id)
            || is_needed(tasks, names, id),
    decreases names.len(),
{
    if names.len() > 0 {
        let rest = names.drop_last();
        let limit = depth_limit(tasks);
        lemma_finalized_is_needed(tasks, rest, order, id);
        lemma_finalized_order(tasks, rest, order);
        let earlier = finalized(tasks, rest, order)->Ok_0.order;
        let ids = root_ids(tasks, names.last())->Ok_0;
        let longer = finalized(tasks, names, order)->Ok_0.order;
        law_plan_is_dependency_first(tasks, ids, earlier, seq![], limit);
        if earlier.contains(id) {
            let i = choose|i: int| 0 <= i < earlier.len() && earlier[i] == id;
            assert(longer.subrange(0, earlier.len() as int)[i] == longer[i]);
        }
        if is_needed(tasks, rest, id) {
            let chain = choose|chain: Seq<Seq<char>>| #[trigger]
                is_chain(tasks, chain) && chain.len() > 0 && is_named(tasks, rest, chain[0])
                    && chain.last() == id;
            lemma_named_last(tasks, names, chain[0]);
        }
        if longer.contains(id) && !earlier.contains(id) {
            lemma_planned_is_reached(tasks, ids, earlier, seq![], limit, id);
            let chain = choose|chain: Seq<Seq<char>>| #[trigger]
                is_chain(tasks, chain) && chain.len() > 0 && ids.contains(chain[0])
                    && chain.last() == id;
            lemma_named_last(tasks, names, chain[0]);
        }
        if is_needed(tasks, names, id) {
            let chain = choose|chain: Seq<Seq<char>>| #[trigger]
                is_chain(tasks, chain) && chain.len() > 0 && is_named(tasks, names, chain[0])
                    && chain.last() == id;
            lemma_named_last(tasks, names, chain[0]);
            if ids.contains(chain[0]) {
                let i = choose|i: int| 0 <= i < ids.len() && ids[i] == chain[0];
                assert(longer.contains(ids[i]));
                lemma_reached_is_planned(tasks, longer, chain, chain.len() - 1);
            } else {
                assert(is_needed(tasks, rest, id));
            }
        }
    } else if is_needed(tasks, names, id) {
        let chain = choose|chain: Seq<Seq<char>>| #[trigger]
            is_chain(tasks, chain) && chain.len() > 0 && is_named(tasks, names, chain[0])
                && chain.last() == id;
        assert(!is_named(tasks, names, chain[0]));
    }
}

/// A plan holds exactly what is asked for and what that needs: the requested
/// tasks, or the tasks and the finalizers of the pipeline, and whatever they
/// depend on.
pub proof fn law_a_plan_holds_what_is_needed(
    project: ProjectView,
    directories: Seq<(Seq<char>, Resolution)>,
    pipeline: Option<Seq<char>>,
    requested: Seq<Seq<char>>,
    id: Seq<char>,
)
    requires
        plan_of(project, directories, pipeline, requested) is Ok,
    ensures
        ({
            let plan = plan_of(project, directories, pipeline, requested)->Ok_0;
            let config = lookup(
                project.pipelines,
                crate::project::chosen_pipeline(project, pipeline),
            )->0;
            (exists|k: int| 0 <= k < plan.len() && (#[trigger] plan[k]).id == id) <==> is_needed(
                project.tasks,
                requested_names(project, pipeline, requested)->Ok_0,
                id,
            ) || (requested.len() == 0 && is_needed(project.tasks, texts(config.finally@), id))
        }),
{
    let tasks = project.tasks;
    let plan = plan_of(project, directories, pipeline, requested)->Ok_0;
    lemma_plan_parts(project, directories, pipeline, requested);
    let order = planned_ids(project, pipeline, requested)->Ok_0;
    let all = ordered(project, pipeline, requested).0.order;
    let last = if requested.len() > 0 {
        seq![]
    } else {
        texts(
            lookup(
                project.pipelines,
                crate::project::chosen_pipeline(project, pipeline),
            )->0.finally@,
        )
    };
    let roots = crate::map::keys(
        root_set(tasks, requested_names(project, pipeline, requested)->Ok_0)->Ok_0,
    );
    assert(is_plan_order(tasks, seq![]));
    law_plan_is_dependency_first(tasks, roots, seq![], seq![], depth_limit(tasks));
    lemma_planned_is_needed(project, pipeline, requested, id);
    lemma_finalized_is_needed(tasks, last, order, id);
    if requested.len() > 0 {
        assert(finalized(tasks, last, order)->Ok_0.order == order);
    }
    if all.contains(id) {
        let k = choose|k: int| 0 <= k < all.len() && all[k] == id;
        assert(plan[k].id == id);
    }
    if exists|k: int| 0 <= k < plan.len() && (#[trigger] plan[k]).id == id {
        let k = choose|k: int| 0 <= k < plan.len() && (#[trigger] plan[k]).id == id;
        assert(all[k] == id);
    }
}

proof fn lemma_edges_one_by_one(tasks: Tasks, order: Seq<Seq<char>>, count: nat)
    requires
        count <= order.len(),
        forall|k: int| 0 <= k < order.len() ==> dependencies(tasks, #[trigger] order[k]) is Ok,
    ensures
        edges_of(tasks, order, count) is Ok,
        edges_of(tasks, order, count)->Ok_0.len() == count,
        forall|k: int|
            0 <= k < count ==> #[trigger] edges_of(tasks, order, count)->Ok_0[k] == (
                order[k],
                dependencies(tasks, order[k])->Ok_0,
            ),
    decreases count,
{
    if count > 0 {
        lemma_edges_one_by_one(tasks, order, (count - 1) as nat);
        let earlier = edges_of(tasks, order, (count - 1) as nat)->Ok_0;
        assert(dependencies(tasks, order[count - 1]) is Ok);
        let all = edges_of(tasks, order, count)->Ok_0;
        assert forall|k: int| 0 <= k < count implies #[trigger] all[k] == (
            order[k],
            dependencies(tasks, order[k])->Ok_0,
        ) by {
            if k < count - 1 {
                assert(all[k] == earlier[k]);
            }
        }
    }
}

/// The graph lists the tasks of the plan, in the order of the plan and with the
/// same dependencies. Behind them the plan holds only finalizers, and none
/// where tasks are requested or the pipeline names none.
pub proof fn law_the_graph_is_that_of_the_plan(
    project: ProjectView,
    directories: Seq<(Seq<char>, Resolution)>,
    pipeline: Option<Seq<char>>,
    requested: Seq<Seq<char>>,
)
    requires
        plan_of(project, directories, pipeline, requested) is Ok,
    ensures
        ({
            let plan = plan_of(project, directories, pipeline, requested)->Ok_0;
            let order = planned_ids(project, pipeline, requested)->Ok_0;
            let edges = edges_of(project.tasks, order, order.len());
            let config = lookup(
                project.pipelines,
                crate::project::chosen_pipeline(project, pipeline),
            )->0;
            &&& edges is Ok
            &&& edges->Ok_0.len() <= plan.len()
            &&& forall|k: int|
                0 <= k < edges->Ok_0.len() ==> #[trigger] edges->Ok_0[k] == (
                    plan[k].id,
                    plan[k].depends_on,
                )
            &&& forall|k: int|
                edges->Ok_0.len() <= k < plan.len() ==> (#[trigger] plan[k]).finalizer
            &&& requested.len() > 0 || config.finally@.len() == 0 ==> edges->Ok_0.len()
                == plan.len()
        }),
{
    let tasks = project.tasks;
    let plan = plan_of(project, directories, pipeline, requested)->Ok_0;
    lemma_plan_parts(project, directories, pipeline, requested);
    let order = planned_ids(project, pipeline, requested)->Ok_0;
    let (all, normal) = ordered(project, pipeline, requested);
    let last = if requested.len() > 0 {
        seq![]
    } else {
        texts(
            lookup(
                project.pipelines,
                crate::project::chosen_pipeline(project, pipeline),
            )->0.finally@,
        )
    };
    let roots = crate::map::keys(
        root_set(tasks, requested_names(project, pipeline, requested)->Ok_0)->Ok_0,
    );
    assert(is_plan_order(tasks, seq![]));
    law_plan_is_dependency_first(tasks, roots, seq![], seq![], depth_limit(tasks));
    lemma_finalized_parts(tasks, last, order, seq![]);
    lemma_edges_one_by_one(tasks, order, order.len());
    let edges = edges_of(tasks, order, order.len())->Ok_0;
    assert forall|k: int| 0 <= k < edges.len() implies #[trigger] edges[k] == (
        plan[k].id,
        plan[k].depends_on,
    ) by {
        assert(all.order.subrange(0, order.len() as int)[k] == order[k]);
        assert(all.order[k] == order[k]);
        assert(plan[k].id == order[k]);
    }
    assert forall|k: int| edges.len() <= k < plan.len() implies (#[trigger] plan[k]).finalizer by {
        assert(k >= normal);
    }
    if requested.len() > 0 || last.len() == 0 {
        assert(all.order == order);
    }
}

/// A planned task is a finalizer if and only if a pipeline is planned, and the
/// task is named among its finalizers or its own tasks do not need it.
pub proof fn law_finalizers_are_named_or_not_needed(
    project: ProjectView,
    directories: Seq<(Seq<char>, Resolution)>,
    pipeline: Option<Seq<char>>,
    requested: Seq<Seq<char>>,
    k: int,
)
    requires
        plan_of(project, directories, pipeline, requested) is Ok,
        0 <= k < plan_of(project, directories, pipeline, requested)->Ok_0.len(),
    ensures
        ({
            let task = plan_of(project, directories, pipeline, requested)->Ok_0[k];
            let config = lookup(
                project.pipelines,
                crate::project::chosen_pipeline(project, pipeline),
            )->0;
            task.finalizer <==> requested.len() == 0 && (is_named(
                project.tasks,
                texts(config.finally@),
                task.id,
            ) || !is_needed(project.tasks, texts(config.tasks@), task.id))
        }),
{
    let tasks = project.tasks;
    let plan = plan_of(project, directories, pipeline, requested)->Ok_0;
    lemma_plan_parts(project, directories, pipeline, requested);
    let order = planned_ids(project, pipeline, requested)->Ok_0;
    let all = ordered(project, pipeline, requested).0;
    let id = plan[k].id;
    assert(id == all.order[k]);
    let last = if requested.len() > 0 {
        seq![]
    } else {
        texts(
            lookup(
                project.pipelines,
                crate::project::chosen_pipeline(project, pipeline),
            )->0.finally@,
        )
    };
    let roots = crate::map::keys(
        root_set(tasks, requested_names(project, pipeline, requested)->Ok_0)->Ok_0,
    );
    assert(is_plan_order(tasks, seq![]));
    law_plan_is_dependency_first(tasks, roots, seq![], seq![], depth_limit(tasks));
    lemma_finalized_parts(tasks, last, order, id);
    lemma_planned_is_needed(project, pipeline, requested, id);
    assert(order.contains(id) <==> k < order.len()) by {
        if k < order.len() {
            assert(all.order.subrange(0, order.len() as int)[k] == order[k]);
        }
        if order.contains(id) {
            let i = choose|i: int| 0 <= i < order.len() && order[i] == id;
            assert(all.order.subrange(0, order.len() as int)[i] == order[i]);
        }
    }
}

} // verus!
