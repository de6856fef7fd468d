//! What a plan shows of the environment: the names of the variables, and
//! nothing of their values.

use vstd::prelude::*;

use crate::commands::ci::{plan_line, plan_text, redacted, resolved_plan, shown_plan, shown_task};
use crate::config::{MonoConfig, TaskConfig};
use crate::map::{keys, lookup};
use crate::project::error::ProjectFault;
use crate::project::graph::{
    dependencies, depth_limit, mentioned, resolved_ref, resolved_refs, root_ids,
    root_set, task_of, visited, visited_all, Tasks,
};
use crate::project::matrix::{list_entries, text_entries, Dimensions};
use crate::project::planned::{declared_cwd, interpolated_env, planned_task, PlannedTaskView};
use crate::project::validate::{Directories, Resolution};
use crate::project::{
    chosen_pipeline, described, finalized, planned_ids, planned_tasks, FinalizedOrder, Pipelines,
    ProjectView,
};
use crate::text::{optional_text, texts};

verus! {

/// Whether two tasks say the same, but for the values of their environments.
pub open spec fn same_but_values(a: TaskConfig, b: TaskConfig) -> bool {
    &&& texts(a.command@) == texts(b.command@)
    &&& texts(a.depends_on@) == texts(b.depends_on@)
    &&& optional_text(a.cwd) == optional_text(b.cwd)
    &&& keys(a.env@) == keys(b.env@)
    &&& a.stdin == b.stdin
    &&& a.cache == b.cache
    &&& texts(a.inputs@) == texts(b.inputs@)
    &&& texts(a.outputs@) == texts(b.outputs@)
    &&& texts(a.cache_env@) == texts(b.cache_env@)
    &&& a.timeout_seconds == b.timeout_seconds
    &&& a.max_output_bytes == b.max_output_bytes
    &&& optional_text(a.resource_group) == optional_text(b.resource_group)
    &&& a.retries == b.retries
    &&& a.retry_backoff_seconds == b.retry_backoff_seconds
    &&& list_entries(a.matrix@) == list_entries(b.matrix@)
}

/// Whether two lists of tasks say the same, but for the values of environments.
pub open spec fn tasks_agree(a: Tasks, b: Tasks) -> bool {
    &&& a.len() == b.len()
    &&& forall|i: int|
        0 <= i < a.len() ==> (#[trigger] a[i]).0 == b[i].0 && same_but_values(a[i].1, b[i].1)
}

/// Whether two lists of pipelines say the same.
pub open spec fn pipelines_agree(a: Pipelines, b: Pipelines) -> bool {
    &&& a.len() == b.len()
    &&& forall|i: int|
        0 <= i < a.len() ==> (#[trigger] a[i]).0 == b[i].0 && texts(a[i].1.tasks@) == texts(
            b[i].1.tasks@,
        ) && texts(a[i].1.finally@) == texts(b[i].1.finally@)
}

/// Whether two manifests say the same, but for the values of environments.
pub open spec fn manifests_agree(a: MonoConfig, b: MonoConfig) -> bool {
    &&& a.schema == b.schema
    &&& a.project.name@ == b.project.name@
    &&& a.project.default_pipeline@ == b.project.default_pipeline@
    &&& tasks_agree(a.tasks@, b.tasks@)
    &&& pipelines_agree(a.pipelines@, b.pipelines@)
}

proof fn lemma_tasks_lookup(a: Tasks, b: Tasks, name: Seq<char>)
    requires
        tasks_agree(a, b),
    ensures
        keys(a) == keys(b),
        lookup(a, name) is Some <==> lookup(b, name) is Some,
        lookup(a, name) matches Some(task) ==> same_but_values(task, lookup(b, name)->0),
    decreases a.len(),
{
    assert(keys(a) =~= keys(b)) by {
        assert forall|i: int| 0 <= i < a.len() implies keys(a)[i] == keys(b)[i] by {
            assert(a[i].0 == b[i].0);
        }
    }
    if a.len() > 0 {
        let rest = a.drop_first();
        let other = b.drop_first();
        assert(a[0].0 == b[0].0);
        assert forall|i: int| 0 <= i < rest.len() implies (#[trigger] rest[i]).0 == other[i].0
            && same_but_values(rest[i].1, other[i].1) by {
            assert(rest[i] == a[i + 1] && other[i] == b[i + 1]);
        }
        lemma_tasks_lookup(rest, other, name);
    }
}

proof fn lemma_pipelines_lookup(a: Pipelines, b: Pipelines, name: Seq<char>)
    requires
        pipelines_agree(a, b),
    ensures
        keys(a) == keys(b),
        lookup(a, name) is Some <==> lookup(b, name) is Some,
        lookup(a, name) matches Some(pipeline) ==> texts(pipeline.tasks@) == texts(
            lookup(b, name)->0.tasks@,
        ) && texts(pipeline.finally@) == texts(lookup(b, name)->0.finally@),
    decreases a.len(),
{
    assert(keys(a) =~= keys(b)) by {
        assert forall|i: int| 0 <= i < a.len() implies keys(a)[i] == keys(b)[i] by {
            assert(a[i].0 == b[i].0);
        }
    }
    if a.len() > 0 {
        let rest = a.drop_first();
        let other = b.drop_first();
        assert(a[0].0 == b[0].0);
        assert forall|i: int| 0 <= i < rest.len() implies (#[trigger] rest[i]).0 == other[i].0
            && texts(rest[i].1.tasks@) == texts(other[i].1.tasks@) && texts(rest[i].1.finally@)
            == texts(other[i].1.finally@) by {
            assert(rest[i] == a[i + 1] && other[i] == b[i + 1]);
        }
        lemma_pipelines_lookup(rest, other, name);
    }
}

proof fn lemma_task_of(a: Tasks, b: Tasks, node: Seq<char>)
    requires
        tasks_agree(a, b),
    ensures
        task_of(a, node) matches Ok(task) ==> task_of(b, node) is Ok && same_but_values(
            task,
            task_of(b, node)->Ok_0,
        ),
        task_of(a, node) matches Err(fault) ==> task_of(b, node) == Err::<TaskConfig, ProjectFault>(
            fault,
        ),
{
    lemma_tasks_lookup(a, b, node);
    if let Some(base) = crate::project::matrix::base_name(node) {
        lemma_tasks_lookup(a, b, base);
    }
}

proof fn lemma_refs(a: Tasks, b: Tasks, current: Seq<char>, references: Seq<Seq<char>>)
    requires
        tasks_agree(a, b),
    ensures
        resolved_refs(a, current, references) == resolved_refs(b, current, references),
    decreases references.len(),
{
    if references.len() > 0 {
        lemma_refs(a, b, current, references.drop_last());
        lemma_task_of(a, b, references.last());
        assert(resolved_ref(a, current, references.last()) == resolved_ref(
            b,
            current,
            references.last(),
        ));
    }
}

proof fn lemma_dependencies(a: Tasks, b: Tasks, node: Seq<char>)
    requires
        tasks_agree(a, b),
    ensures
        dependencies(a, node) == dependencies(b, node),
{
    lemma_task_of(a, b, node);
    if let Ok(task) = task_of(a, node) {
        lemma_refs(a, b, node, texts(task.depends_on@));
    }
}

proof fn lemma_root_ids(a: Tasks, b: Tasks, name: Seq<char>)
    requires
        tasks_agree(a, b),
    ensures
        root_ids(a, name) == root_ids(b, name),
{
    lemma_task_of(a, b, name);
}

proof fn lemma_root_set(a: Tasks, b: Tasks, names: Seq<Seq<char>>)
    requires
        tasks_agree(a, b),
    ensures
        root_set(a, names) == root_set(b, names),
    decreases names.len(),
{
    if names.len() > 0 {
        lemma_root_set(a, b, names.drop_last());
        lemma_root_ids(a, b, names.last());
    }
}

proof fn lemma_mentioned(a: Tasks, b: Tasks)
    requires
        tasks_agree(a, b),
    ensures
        mentioned(a) == mentioned(b),
    decreases a.len(),
{
    if a.len() > 0 {
        let rest = a.drop_last();
        let other = b.drop_last();
        assert forall|i: int| 0 <= i < rest.len() implies (#[trigger] rest[i]).0 == other[i].0
            && same_but_values(rest[i].1, other[i].1) by {
            assert(rest[i] == a[i] && other[i] == b[i]);
        }
        lemma_mentioned(rest, other);
        assert(a[a.len() - 1].0 == b[b.len() - 1].0);
    }
}

proof fn lemma_visited(
    a: Tasks,
    b: Tasks,
    node: Seq<char>,
    done: Seq<Seq<char>>,
    stack: Seq<Seq<char>>,
    limit: nat,
)
    requires
        tasks_agree(a, b),
    ensures
        visited(a, node, done, stack, limit) == visited(b, node, done, stack, limit),
    decreases limit, 0nat,
{
    lemma_dependencies(a, b, node);
    if limit > 0 {
        if let Ok(needed) = dependencies(a, node) {
            lemma_visited_all(a, b, needed, done, stack.push(node), (limit - 1) as nat);
        }
    }
}

proof fn lemma_visited_all(
    a: Tasks,
    b: Tasks,
    nodes: Seq<Seq<char>>,
    done: Seq<Seq<char>>,
    stack: Seq<Seq<char>>,
    limit: nat,
)
    requires
        tasks_agree(a, b),
    ensures
        visited_all(a, nodes, done, stack, limit) == visited_all(b, nodes, done, stack, limit),
    decreases limit, nodes.len() + 1,
{
    if nodes.len() > 0 {
        lemma_visited_all(a, b, nodes.drop_last(), done, stack, limit);
        if let Ok(order) = visited_all(a, nodes.drop_last(), done, stack, limit) {
            lemma_visited(a, b, nodes.last(), order, stack, limit);
        }
    }
}

proof fn lemma_finalized(a: Tasks, b: Tasks, names: Seq<Seq<char>>, order: Seq<Seq<char>>)
    requires
        tasks_agree(a, b),
    ensures
        finalized(a, names, order) == finalized(b, names, order),
    decreases names.len(),
{
    if names.len() > 0 {
        lemma_finalized(a, b, names.drop_last(), order);
        lemma_root_ids(a, b, names.last());
        lemma_mentioned(a, b);
        if let Ok(earlier) = finalized(a, names.drop_last(), order) {
            if let Ok(ids) = root_ids(a, names.last()) {
                lemma_visited_all(a, b, ids, earlier.order, seq![], depth_limit(a));
            }
        }
    }
}

proof fn lemma_env_keys(env: Dimensions, dimensions: Dimensions)
    requires
        interpolated_env(env, dimensions) is Ok,
    ensures
        keys(interpolated_env(env, dimensions)->Ok_0) == keys(env),
    decreases env.len(),
{
    if env.len() > 0 {
        let rest = env.drop_last();
        lemma_env_keys(rest, dimensions);
        let earlier = interpolated_env(rest, dimensions)->Ok_0;
        let all = interpolated_env(env, dimensions)->Ok_0;
        assert(keys(earlier).len() == earlier.len());
        assert(keys(rest).len() == rest.len());
        assert forall|i: int| 0 <= i < env.len() implies keys(all)[i] == keys(env)[i] by {
            if i < rest.len() {
                assert(keys(earlier)[i] == keys(rest)[i]);
                assert(all[i] == earlier[i] && rest[i] == env[i]);
            }
        }
        assert(keys(all) =~= keys(env));
    } else {
        assert(keys(interpolated_env(env, dimensions)->Ok_0) =~= keys(env));
    }
}

proof fn lemma_planned_task(
    a: ProjectView,
    b: ProjectView,
    directories: Seq<(Seq<char>, Resolution)>,
    node: Seq<char>,
    finalizer: bool,
)
    requires
        tasks_agree(a.tasks, b.tasks),
        a.root == b.root,
        a.name == b.name,
        planned_task(a, directories, node, finalizer) is Ok,
        planned_task(b, directories, node, finalizer) is Ok,
    ensures
        shown_task(planned_task(a, directories, node, finalizer)->Ok_0) == shown_task(
            planned_task(b, directories, node, finalizer)->Ok_0,
        ),
{
    lemma_task_of(a.tasks, b.tasks, node);
    let one = task_of(a.tasks, node)->Ok_0;
    let two = task_of(b.tasks, node)->Ok_0;
    let dimensions = crate::project::matrix::dimensions_of(node)->0;
    assert(declared_cwd(one) == declared_cwd(two));
    lemma_refs(a.tasks, b.tasks, node, texts(one.depends_on@));
    lemma_env_keys(text_entries(one.env@), dimensions);
    lemma_env_keys(text_entries(two.env@), dimensions);
    assert(keys(text_entries(one.env@)) =~= keys(one.env@));
    assert(keys(text_entries(two.env@)) =~= keys(two.env@));
}

proof fn lemma_planned_tasks(
    a: ProjectView,
    b: ProjectView,
    directories: Seq<(Seq<char>, Resolution)>,
    plan: FinalizedOrder,
    normal: nat,
    count: nat,
)
    requires
        tasks_agree(a.tasks, b.tasks),
        a.root == b.root,
        a.name == b.name,
        planned_tasks(a, directories, plan, normal, count) is Ok,
        planned_tasks(b, directories, plan, normal, count) is Ok,
    ensures
        ({
            let one = planned_tasks(a, directories, plan, normal, count)->Ok_0;
            let two = planned_tasks(b, directories, plan, normal, count)->Ok_0;
            &&& one.len() == two.len()
            &&& forall|k: int|
                0 <= k < one.len() ==> shown_task(#[trigger] one[k]) == shown_task(two[k])
        }),
    decreases count,
{
    if count > 0 {
        lemma_planned_tasks(a, b, directories, plan, normal, (count - 1) as nat);
        let id = plan.order[count - 1];
        lemma_planned_task(
            a,
            b,
            directories,
            id,
            count - 1 >= normal || plan.roots.contains(id),
        );
        let one = planned_tasks(a, directories, plan, normal, count)->Ok_0;
        let two = planned_tasks(b, directories, plan, normal, count)->Ok_0;
        let first = planned_tasks(a, directories, plan, normal, (count - 1) as nat)->Ok_0;
        let second = planned_tasks(b, directories, plan, normal, (count - 1) as nat)->Ok_0;
        assert forall|k: int| 0 <= k < one.len() implies shown_task(#[trigger] one[k])
            == shown_task(two[k]) by {
            if k < first.len() {
                assert(one[k] == first[k] && two[k] == second[k]);
            }
        }
    }
}

/// No value of an environment has any influence on what is shown of a plan: two
/// manifests that differ in nothing but such values, both of which can be
/// planned, look the same.
pub proof fn law_shown_plans_do_not_depend_on_environment_values(
    root: Seq<char>,
    a: MonoConfig,
    b: MonoConfig,
    directories: Directories,
    pipeline: Option<Seq<char>>,
    requested: Seq<Seq<char>>,
)
    requires
        manifests_agree(a, b),
        resolved_plan(root, a, directories, pipeline, requested) is Ok,
        resolved_plan(root, b, directories, pipeline, requested) is Ok,
    ensures
        ({
            let one = resolved_plan(root, a, directories, pipeline, requested)->Ok_0;
            let two = resolved_plan(root, b, directories, pipeline, requested)->Ok_0;
            &&& shown_plan(described(root, a), one) == shown_plan(described(root, b), two)
            &&& plan_text(shown_plan(described(root, a), one)) == plan_text(
                shown_plan(described(root, b), two),
            )
        }),
{
    let one = resolved_plan(root, a, directories, pipeline, requested)->Ok_0;
    let two = resolved_plan(root, b, directories, pipeline, requested)->Ok_0;
    let left = described(root, a);
    let right = described(root, b);
    let name = chosen_pipeline(left, pipeline);
    lemma_pipelines_lookup(a.pipelines@, b.pipelines@, name);
    lemma_mentioned(a.tasks@, b.tasks@);
    let names = crate::project::requested_names(left, pipeline, requested)->Ok_0;
    assert(crate::project::requested_names(right, pipeline, requested)->Ok_0 == names);
    lemma_root_set(a.tasks@, b.tasks@, names);
    let roots = keys(root_set(a.tasks@, names)->Ok_0);
    lemma_visited_all(a.tasks@, b.tasks@, roots, seq![], seq![], depth_limit(a.tasks@));
    let order = planned_ids(left, pipeline, requested)->Ok_0;
    assert(planned_ids(right, pipeline, requested)->Ok_0 == order);
    let last = if requested.len() > 0 {
        seq![]
    } else {
        texts(lookup(left.pipelines, name)->0.finally@)
    };
    lemma_finalized(a.tasks@, b.tasks@, last, order);
    let plan = finalized(a.tasks@, last, order)->Ok_0;
    lemma_planned_tasks(
        left,
        right,
        directories.resolved@,
        plan,
        order.len(),
        plan.order.len(),
    );
    assert(shown_plan(left, one).tasks =~= shown_plan(right, two).tasks);
}

/// The note that stands for a variable.
pub open spec fn redacted_variable(name: Seq<char>) -> Seq<char> {
    " [env "@ + name + "=<redacted>]"@
}

proof fn lemma_redacted_names(env: Seq<Seq<char>>, k: int) -> (at: int)
    requires
        0 <= k < env.len(),
    ensures
        0 <= at,
        at + redacted_variable(env[k]).len() <= redacted(env).len(),
        redacted(env).subrange(at, at + redacted_variable(env[k]).len()) == redacted_variable(
            env[k],
        ),
    decreases env.len(),
{
    let front = redacted(env.drop_last());
    let note = redacted_variable(env[k]);
    if k < env.len() - 1 {
        let at = lemma_redacted_names(env.drop_last(), k);
        assert(redacted(env).subrange(at, at + note.len()) =~= front.subrange(at, at + note.len()));
        at
    } else {
        assert(redacted(env).subrange(front.len() as int, front.len() as int + note.len()) =~= note);
        front.len() as int
    }
}

/// The line of a planned task names each of its variables, with a note in place
/// of the value.
pub proof fn law_variables_are_named_and_redacted(task: PlannedTaskView, k: int)
    requires
        0 <= k < task.env.len(),
    ensures
        ({
            let line = plan_line(shown_task(task));
            let note = redacted_variable(task.env[k].0);
            exists|at: int|
                0 <= at && at + note.len() <= line.len() && #[trigger] line.subrange(
                    at,
                    at + note.len(),
                ) == note
        }),
{
    let line = plan_line(shown_task(task));
    let names = keys(task.env);
    let note = redacted_variable(task.env[k].0);
    let tail = redacted(names);
    let at = lemma_redacted_names(names, k);
    let start = line.len() - tail.len();
    assert(line.skip(start) =~= tail);
    assert(line.subrange(start + at, start + at + note.len()) =~= tail.subrange(
        at,
        at + note.len(),
    ));
}

} // verus!
