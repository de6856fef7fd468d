//! What is promised of the packages of a workspace and of their tasks.

use vstd::prelude::*;

use crate::config::{PipelineConfig, TaskConfig};
use crate::io::IoError;
use crate::map::{
    inserted, keys, law_a_key_gives_the_value_held_with_it, law_insert_lookup, lookup, sorted,
};
use crate::path::is_below;
use crate::project::graph::Tasks;
use crate::project::matrix::text_entries;
use crate::project::promises::{
    is_sound_pattern, law_the_first_problem_is_reported, lemma_arguments, lemma_environment,
    lemma_patterns, lemma_positive, lemma_stays_inside, resolves_below, selects_something,
    stays_inside,
};
use crate::project::validate::Resolution;
use crate::text::{
    find, law_the_first_occurrence_is_found, lemma_found_at, optional_text, split_once, stands_at,
    texts,
};
use crate::workspace::error::{Node, WorkspaceError, WorkspaceFault};
use crate::workspace::graph::{
    dependencies, resolved_ref, resolved_refs, task_of, workspace_name, PackageView, Scope,
};
use crate::workspace::load::{
    loaded_standalone, loaded_workspace, member_package, pipeline_plan_problem, with_member,
    with_members, Found, Member, MonorepoConfig,
};
use crate::workspace::planned::{planned_task, PlannedTaskView};
use crate::workspace::root::{nearest_package, nearest_workspace, FoundManifest};
use crate::workspace::validate::{
    package_problem, resolved_directory, task_problem, tasks_problem, variables_problem,
};
use crate::workspace::{edges_of, node_lt, plan_of, requested_names, selected_packages, with_node};

verus! {

proof fn lemma_split_at_colon(package: Seq<char>, task: Seq<char>)
    requires
        !package.contains(':'),
    ensures
        split_once(package + seq![':'] + task, ":"@) == Some((package, task)),
        split_once(package, ":"@) is None,
{
    reveal_strlit(":");
    let mark = ":"@;
    assert(mark =~= seq![':']);
    let whole = package + mark + task;
    let k = package.len() as int;
    assert(whole.subrange(k, k + 1) =~= mark);
    assert forall|j: int| 0 <= j < k implies !#[trigger] stands_at(whole, mark, j) by {
        if stands_at(whole, mark, j) {
            assert(whole.subrange(j, j + 1)[0] == whole[j]);
            assert(package[j] == ':');
        }
    }
    lemma_found_at(whole, mark, k);
    assert(whole.take(k) =~= package);
    assert(whole.skip(k + 1) =~= task);
    law_the_first_occurrence_is_found(package, mark);
    if let Some(i) = find(package, mark) {
        assert(package.subrange(i, i + 1)[0] == package[i]);
    }
}

/// A name without a colon refers to a task of the same package, and a package
/// and a task with a colon between them to that task; a reference with a part
/// missing, or with a second colon, is refused.
pub proof fn law_references_name_a_task_or_a_package_and_a_task(
    current: Node,
    package: Seq<char>,
    task: Seq<char>,
)
    requires
        !package.contains(':'),
        !package.contains('\0'),
        !task.contains('\0'),
    ensures
        package.len() > 0 ==> resolved_ref(current, package) == Ok::<Node, WorkspaceFault>(
            (current.0, package),
        ),
        package.len() > 0 && task.len() > 0 && !task.contains(':') ==> resolved_ref(
            current,
            package + seq![':'] + task,
        ) == Ok::<Node, WorkspaceFault>((package, task)),
        package.len() == 0 || task.len() == 0 || task.contains(':') ==> resolved_ref(
            current,
            package + seq![':'] + task,
        ) is Err,
        resolved_ref(current, Seq::empty()) is Err,
{
    lemma_split_at_colon(package, task);
    let whole = package + seq![':'] + task;
    if whole.contains('\0') {
        let i = choose|i: int| 0 <= i < whole.len() && whole[i] == '\0';
        let k = package.len() as int;
        if i < k {
            assert(package[i] == '\0');
        } else if i > k {
            assert(task[i - k - 1] == '\0');
        }
    }
}

/// What a task depends on is what its references name, one task for each, in
/// order.
pub proof fn law_each_reference_names_one_dependency(current: Node, references: Seq<Seq<char>>)
    ensures
        resolved_refs(current, references) matches Ok(named) ==> named.len() == references.len()
            && forall|i: int|
            0 <= i < references.len() ==> resolved_ref(current, #[trigger] references[i]) == Ok::<
                Node,
                WorkspaceFault,
            >(named[i]),
        resolved_refs(current, references) is Ok <==> forall|i: int|
            0 <= i < references.len() ==> resolved_ref(current, #[trigger] references[i]) is Ok,
    decreases references.len(),
{
    if references.len() > 0 {
        let front = references.drop_last();
        law_each_reference_names_one_dependency(current, front);
        assert(references[references.len() - 1] == references.last());
        assert(forall|i: int| 0 <= i < front.len() ==> front[i] == #[trigger] references[i]);
        if let Ok(named) = resolved_refs(current, references) {
            let earlier = resolved_refs(current, front)->Ok_0;
            assert forall|i: int| 0 <= i < references.len() implies resolved_ref(
                current,
                #[trigger] references[i],
            ) == Ok::<Node, WorkspaceFault>(named[i]) by {
                if i < front.len() {
                    assert(front[i] == references[i]);
                    assert(named[i] == earlier[i]);
                }
            }
        } else if resolved_refs(current, front) is Err {
            let i = choose|i: int|
                0 <= i < front.len() && resolved_ref(current, #[trigger] front[i]) is Err;
            assert(references[i] == front[i]);
        }
    }
}

/// A planned task of a workspace is what its manifest declares, run below the
/// directory of its package, or of the workspace for a task of its own.
pub proof fn law_a_planned_task_is_what_its_package_declares(
    scope: Scope,
    directories: Seq<(Seq<char>, Resolution)>,
    node: Node,
    declared: TaskConfig,
)
    requires
        task_of(scope, node) == Ok::<TaskConfig, WorkspaceFault>(declared),
        sorted(scope.packages),
    ensures
        planned_task(scope, directories, node) matches Ok(task) ==> {
            &&& task.task == node.1
            &&& task.command == texts(declared.command@)
            &&& task.env == text_entries(declared.env@)
            &&& task.inputs == texts(declared.inputs@)
            &&& task.outputs == texts(declared.outputs@)
            &&& task.cache_env == texts(declared.cache_env@)
            &&& task.cache == declared.cache
            &&& task.timeout.nanos == declared.timeout_seconds * 1_000_000_000
            &&& task.resource_group == optional_text(declared.resource_group)
            &&& dependencies(scope, node) == Ok::<Seq<Node>, WorkspaceFault>(task.depends_on)
            &&& node.0 == "workspace"@ ==> task.package == "workspace"@ && task.package_path
                == scope.root
            &&& node.0 != "workspace"@ ==> exists|package: PackageView| #[trigger]
                scope.packages.contains((node.0, package)) && task.package == package.name
                    && task.package_path == package.path
            &&& resolves_below(
                directories,
                task.package_path,
                match declared.cwd {
                    Some(cwd) => cwd@,
                    None => "."@,
                },
                task.cwd,
            )
        },
{
    if let Ok(task) = planned_task(scope, directories, node) {
        if node.0 != workspace_name() {
            let package = lookup(scope.packages, node.0)->0;
            law_a_key_gives_the_value_held_with_it(scope.packages, node.0, package);
            assert(scope.packages.contains((node.0, package)));
        }
    }
}

proof fn lemma_variables(names: Seq<Seq<char>>)
    ensures
        variables_problem(names) is None <==> forall|i: int|
            0 <= i < names.len() ==> (#[trigger] names[i]).len() > 0 && !names[i].contains('=')
                && !names[i].contains('\0'),
    decreases names.len(),
{
    if names.len() > 0 {
        let rest = names.drop_first();
        lemma_variables(rest);
        if variables_problem(names) is None {
            assert forall|i: int| 0 <= i < names.len() implies (#[trigger] names[i]).len() > 0
                && !names[i].contains('=') && !names[i].contains('\0') by {
                if i > 0 {
                    assert(names[i] == rest[i - 1]);
                }
            }
        }
        if forall|i: int|
            0 <= i < names.len() ==> (#[trigger] names[i]).len() > 0 && !names[i].contains('=')
                && !names[i].contains('\0') {
            assert(names[0].len() > 0);
            assert forall|i: int| 0 <= i < rest.len() implies (#[trigger] rest[i]).len() > 0
                && !rest[i].contains('=') && !rest[i].contains('\0') by {
                assert(rest[i] == names[i + 1]);
            }
        }
    }
}

/// The rules that a task of a package has to keep.
pub open spec fn keeps_the_rules(name: Seq<char>, task: TaskConfig) -> bool {
    let command = texts(task.command@);
    let inputs = texts(task.inputs@);
    let outputs = texts(task.outputs@);
    let names = texts(task.cache_env@);
    let env = text_entries(task.env@);
    &&& name.len() > 0 && !name.contains(':') && !name.contains('\0')
    &&& command.len() > 0 && command[0].len() > 0
    &&& forall|i: int| 0 <= i < command.len() ==> !(#[trigger] command[i]).contains('\0')
    &&& forall|i: int|
        0 <= i < env.len() ==> !(#[trigger] env[i]).0.contains('\0') && !env[i].1.contains('\0')
    &&& task.cache ==> selects_something(inputs)
    &&& outputs.len() > 0 ==> selects_something(outputs)
    &&& forall|i: int| 0 <= i < inputs.len() ==> is_sound_pattern(#[trigger] inputs[i])
    &&& forall|i: int| 0 <= i < outputs.len() ==> is_sound_pattern(#[trigger] outputs[i])
    &&& forall|i: int|
        0 <= i < names.len() ==> (#[trigger] names[i]).len() > 0 && !names[i].contains('=')
            && !names[i].contains('\0')
    &&& task.timeout_seconds > 0
    &&& task.resource_group matches Some(group) ==> group@.len() > 0 && !group@.contains(':')
        && !group@.contains('\0')
    &&& task.cwd matches Some(cwd) ==> stays_inside(cwd@)
}

/// A task of a package is accepted exactly where it keeps every rule and its
/// directory, where it declares one, resolves to one below the package.
pub proof fn law_an_accepted_task_keeps_every_rule(
    path: Seq<char>,
    package_path: Seq<char>,
    package: Seq<char>,
    name: Seq<char>,
    task: TaskConfig,
    directories: Seq<(Seq<char>, Resolution)>,
)
    ensures
        task_problem(path, package_path, package, name, task, directories) is None
            <==> keeps_the_rules(name, task) && (task.cwd matches Some(cwd) ==> exists|
            directory: Seq<char>,
        | #[trigger]
            resolves_below(directories, package_path, cwd@, directory)),
{
    lemma_arguments(texts(task.command@), 0);
    lemma_environment(text_entries(task.env@));
    lemma_positive(texts(task.inputs@));
    lemma_positive(texts(task.outputs@));
    lemma_patterns(texts(task.inputs@));
    lemma_patterns(texts(task.outputs@));
    lemma_variables(texts(task.cache_env@));
    if let Some(cwd) = task.cwd {
        lemma_stays_inside(cwd@);
        if let Ok(directory) = resolved_directory(
            directories,
            package_path,
            package,
            name,
            cwd@,
        ) {
            assert(resolves_below(directories, package_path, cwd@, directory));
        }
    }
}

/// A package is accepted exactly where it has a name and every task is accepted.
pub proof fn law_an_accepted_package_has_accepted_tasks(
    path: Seq<char>,
    package_path: Seq<char>,
    package: Seq<char>,
    tasks: Tasks,
    directories: Seq<(Seq<char>, Resolution)>,
)
    ensures
        package_problem(path, package_path, package, tasks, directories) is None <==> package.len()
            > 0 && !package.contains(':') && !package.contains('\0') && forall|i: int|
            0 <= i < tasks.len() ==> task_problem(
                path,
                package_path,
                package,
                (#[trigger] tasks[i]).0,
                tasks[i].1,
                directories,
            ) is None,
{
    let problem = tasks_problem(path, package_path, package, tasks, directories);
    law_the_first_problem_is_reported(tasks.len(), problem);
    assert(forall|i: int|
        #[trigger]
        problem(i) == task_problem(
            path,
            package_path,
            package,
            (#[trigger] tasks[i]).0,
            tasks[i].1,
            directories,
        ));
    if package_problem(path, package_path, package, tasks, directories) is None {
        assert forall|i: int| 0 <= i < tasks.len() implies task_problem(
            path,
            package_path,
            package,
            (#[trigger] tasks[i]).0,
            tasks[i].1,
            directories,
        ) is None by {
            assert(problem(i) is None);
        }
    }
}

/// Whether a package stands for a member: it is what the manifest of the member
/// describes, in the member's own directory below the root.
pub open spec fn is_of_member(
    package: PackageView,
    root: Seq<char>,
    member: Result<Member, WorkspaceError>,
    directories: Seq<(Seq<char>, Resolution)>,
) -> bool {
    &&& member matches Ok(found) && found.canonical matches Ok(path) && path@ == package.path
        && member_package(path@, found.manifest, directories) == Ok::<PackageView, WorkspaceFault>(
        package,
    )
    &&& is_below(package.path, root)
}

/// Whether every package that has been found stands for a member, under its own
/// name.
pub open spec fn all_of_members(
    found: Found,
    root: Seq<char>,
    members: Seq<Result<Member, WorkspaceError>>,
    directories: Seq<(Seq<char>, Resolution)>,
) -> bool {
    forall|k: int|
        0 <= k < found.packages.len() ==> (#[trigger] found.packages[k]).0
            == found.packages[k].1.name && exists|i: int|
            0 <= i < members.len() && is_of_member(
                found.packages[k].1,
                root,
                #[trigger] members[i],
                directories,
            )
}

/// Whether the directory of every member has been taken in.
pub open spec fn takes_in(found: Found, members: Seq<Result<Member, WorkspaceError>>) -> bool {
    forall|i: int|
        0 <= i < members.len() ==> ((#[trigger] members[i]) matches Ok(member)
            && member.canonical matches Ok(path) && found.paths.contains(path@))
}

/// Every member of a workspace that loads could be read and lies below the
/// root, and its directory is taken in.
pub proof fn law_every_member_is_taken_in(
    found: Found,
    root: Seq<char>,
    members: Seq<Result<Member, WorkspaceError>>,
    directories: Seq<(Seq<char>, Resolution)>,
)
    ensures
        with_members(found, root, members, directories) matches Ok(all) ==> takes_in(all, members)
            && forall|path: Seq<char>| #[trigger]
            found.paths.contains(path) ==> all.paths.contains(path),
    decreases members.len(),
{
    if members.len() > 0 {
        if let Ok(more) = with_member(found, root, members[0], directories) {
            let rest = members.drop_first();
            law_every_member_is_taken_in(more, root, rest, directories);
            if let Ok(all) = with_members(more, root, rest, directories) {
                let path = (members[0]->Ok_0).canonical->Ok_0@;
                assert(more.paths.contains(path)) by {
                    if !found.paths.contains(path) {
                        assert(more.paths.last() == path);
                    }
                }
                assert forall|p: Seq<char>| #[trigger] found.paths.contains(p) implies
                    all.paths.contains(p) by {
                    let i = choose|i: int| 0 <= i < found.paths.len() && found.paths[i] == p;
                    assert(more.paths[i] == p);
                    assert(more.paths.contains(p));
                }
                assert forall|i: int| 0 <= i < members.len() implies ((
                #[trigger] members[i]) matches Ok(member) && member.canonical matches Ok(path)
                    && all.paths.contains(path@)) by {
                    if i > 0 {
                        assert(members[i] == rest[i - 1]);
                    }
                }
            }
        }
    }
}

/// Every package of a workspace is that of a member: it has the name, the tasks
/// and the directory that the member's manifest gives it.
pub proof fn law_every_package_is_that_of_a_member(
    root: Seq<char>,
    members: Seq<Result<Member, WorkspaceError>>,
    directories: Seq<(Seq<char>, Resolution)>,
)
    ensures
        with_members(Found { paths: seq![], packages: seq![] }, root, members, directories) matches Ok(
            all,
        ) ==> all_of_members(all, root, members, directories),
{
    let none = Seq::<Result<Member, WorkspaceError>>::empty();
    assert(none + members =~= members);
    lemma_packages_of_members(
        Found { paths: seq![], packages: seq![] },
        root,
        none,
        members,
        directories,
    );
}

proof fn lemma_packages_of_members(
    found: Found,
    root: Seq<char>,
    before: Seq<Result<Member, WorkspaceError>>,
    members: Seq<Result<Member, WorkspaceError>>,
    directories: Seq<(Seq<char>, Resolution)>,
)
    requires
        sorted(found.packages),
        all_of_members(found, root, before, directories),
    ensures
        with_members(found, root, members, directories) matches Ok(all) ==> all_of_members(
            all,
            root,
            before + members,
            directories,
        ),
    decreases members.len(),
{
    if members.len() == 0 {
        assert(before + members =~= before);
    } else if let Ok(more) = with_member(found, root, members[0], directories) {
        let one = before.push(members[0]);
        let rest = members.drop_first();
        assert(one + rest =~= before + members);
        let member = members[0]->Ok_0;
        let path = member.canonical->Ok_0@;
        assert(all_of_members(found, root, one, directories)) by {
            assert forall|k: int| 0 <= k < found.packages.len() implies (
            #[trigger] found.packages[k]).0 == found.packages[k].1.name && exists|i: int|
                0 <= i < one.len() && is_of_member(
                    found.packages[k].1,
                    root,
                    #[trigger] one[i],
                    directories,
                ) by {
                let i = choose|i: int|
                    0 <= i < before.len() && is_of_member(
                        found.packages[k].1,
                        root,
                        #[trigger] before[i],
                        directories,
                    );
                assert(one[i] == before[i]);
            }
        }
        if !found.paths.contains(path) {
            let package = member_package(path, member.manifest, directories)->Ok_0;
            law_insert_lookup(found.packages, package.name, package);
            assert(is_of_member(package, root, members[0], directories));
            assert(one[before.len() as int] == members[0]);
            assert forall|k: int| 0 <= k < more.packages.len() implies (
            #[trigger] more.packages[k]).0 == more.packages[k].1.name && exists|i: int|
                0 <= i < one.len() && is_of_member(
                    more.packages[k].1,
                    root,
                    #[trigger] one[i],
                    directories,
                ) by {
                let (name, here) = more.packages[k];
                crate::map::lemma_lookup_index(more.packages, k);
                assert(lookup(more.packages, name) == Some(here));
                if name == package.name {
                    assert(here == package);
                    assert(is_of_member(package, root, one[before.len() as int], directories));
                } else {
                    crate::map::lemma_lookup_some(found.packages, name);
                    let at = choose|at: int|
                        0 <= at < found.packages.len() && #[trigger] found.packages[at] == (
                            name,
                            here,
                        );
                    assert(found.packages[at].1 == here);
                }
            }
        }
        lemma_packages_of_members(more, root, one, rest, directories);
    }
}

/// Adding a task to an ordered list of tasks keeps it in order and holds what it
/// held and the task, once.
pub proof fn law_selected_tasks_are_kept_in_order(set: Seq<Node>, node: Node, other: Node)
    requires
        forall|i: int, j: int|
            0 <= i < j < set.len() ==> node_lt(#[trigger] set[i], #[trigger] set[j]),
    ensures
        with_node(set, node).contains(other) <==> set.contains(other) || other == node,
        forall|i: int, j: int|
            0 <= i < j < with_node(set, node).len() ==> node_lt(
                #[trigger] with_node(set, node)[i],
                #[trigger] with_node(set, node)[j],
            ),
    decreases set.len(),
{
    let now = with_node(set, node);
    if set.len() == 0 {
        assert(now[0] == node);
        assert(now =~= seq![node]);
        if now.contains(other) {
            let i = choose|i: int| 0 <= i < now.len() && now[i] == other;
        }
    } else if set[0] == node {
        assert(set.contains(node));
    } else if node_lt(node, set[0]) {
        assert(now[0] == node);
        if now.contains(other) && other != node {
            let i = choose|i: int| 0 <= i < now.len() && now[i] == other;
            assert(set[i - 1] == other);
        }
        if set.contains(other) {
            let i = choose|i: int| 0 <= i < set.len() && set[i] == other;
            assert(now[i + 1] == other);
        }
        assert forall|i: int, j: int| 0 <= i < j < now.len() implies node_lt(
            #[trigger] now[i],
            #[trigger] now[j],
        ) by {
            assert(now[j] == set[j - 1]);
            if i > 0 {
                assert(now[i] == set[i - 1]);
            } else if j > 1 {
                assert(node_lt(set[0], set[j - 1]));
                lemma_node_lt_transitive(node, set[0], set[j - 1]);
            }
        }
    } else {
        let rest = set.drop_first();
        assert forall|i: int, j: int| 0 <= i < j < rest.len() implies node_lt(
            #[trigger] rest[i],
            #[trigger] rest[j],
        ) by {
            assert(rest[i] == set[i + 1] && rest[j] == set[j + 1]);
        }
        law_selected_tasks_are_kept_in_order(rest, node, other);
        let tail = with_node(rest, node);
        assert(now =~= seq![set[0]] + tail);
        if now.contains(other) {
            let i = choose|i: int| 0 <= i < now.len() && now[i] == other;
            if i > 0 {
                assert(tail[i - 1] == other);
                if rest.contains(other) {
                    let k = choose|k: int| 0 <= k < rest.len() && rest[k] == other;
                    assert(set[k + 1] == other);
                }
            } else {
                assert(set[0] == other);
            }
        }
        if set.contains(other) || other == node {
            if other == set[0] {
                assert(now[0] == other);
            } else {
                if set.contains(other) {
                    let k = choose|k: int| 0 <= k < set.len() && set[k] == other;
                    assert(rest[k - 1] == other);
                }
                assert(tail.contains(other));
                let i = choose|i: int| 0 <= i < tail.len() && tail[i] == other;
                assert(now[i + 1] == other);
            }
        }
        assert forall|i: int, j: int| 0 <= i < j < now.len() implies node_lt(
            #[trigger] now[i],
            #[trigger] now[j],
        ) by {
            assert(now[j] == tail[j - 1]);
            if i > 0 {
                assert(now[i] == tail[i - 1]);
            } else {
                law_selected_tasks_are_kept_in_order(rest, node, tail[j - 1]);
                assert(tail.contains(tail[j - 1]));
                if rest.contains(tail[j - 1]) {
                    let k = choose|k: int| 0 <= k < rest.len() && rest[k] == tail[j - 1];
                    assert(set[k + 1] == tail[j - 1]);
                    assert(node_lt(set[0], set[k + 1]));
                } else {
                    lemma_node_lt_total(set[0], node);
                }
            }
        }
    }
}

proof fn lemma_node_lt_transitive(a: Node, b: Node, c: Node)
    requires
        node_lt(a, b),
        node_lt(b, c),
    ensures
        node_lt(a, c),
{
    if crate::text::text_lt(a.0, b.0) && crate::text::text_lt(b.0, c.0) {
        crate::text::lemma_text_lt_transitive(a.0, b.0, c.0);
    }
    if crate::text::text_lt(a.1, b.1) && crate::text::text_lt(b.1, c.1) {
        crate::text::lemma_text_lt_transitive(a.1, b.1, c.1);
    }
}

proof fn lemma_node_lt_total(a: Node, b: Node)
    ensures
        a == b || node_lt(a, b) || node_lt(b, a),
{
    crate::text::lemma_text_lt_total(a.0, b.0);
    crate::text::lemma_text_lt_total(a.1, b.1);
}

/// Requested tasks are planned as they are named; without any, those of the
/// named pipeline are, or else of the default one. A selected package is planned
/// alone; without one, every package is.
pub proof fn law_the_named_pipeline_and_package_are_planned(
    scope: Scope,
    pipeline: Option<Seq<char>>,
    requested: Seq<Seq<char>>,
    selected: Option<Seq<char>>,
    name: Seq<char>,
    config: PipelineConfig,
)
    requires
        sorted(scope.pipelines),
        sorted(scope.packages),
        name == match pipeline {
            Some(named) => named,
            None => scope.default_pipeline,
        },
    ensures
        requested.len() > 0 ==> requested_names(scope, pipeline, requested) == Ok::<
            Seq<Seq<char>>,
            WorkspaceFault,
        >(requested),
        requested.len() == 0 && scope.pipelines.contains((name, config)) && config.tasks@.len() > 0
            ==> requested_names(scope, pipeline, requested) == Ok::<Seq<Seq<char>>, WorkspaceFault>(
            texts(config.tasks@),
        ),
        requested.len() == 0 && !keys(scope.pipelines).contains(name) ==> requested_names(
            scope,
            pipeline,
            requested,
        ) is Err,
        selected is None ==> selected_packages(scope, selected) == Ok::<
            Seq<Seq<char>>,
            WorkspaceFault,
        >(keys(scope.packages)),
        selected matches Some(package) ==> if keys(scope.packages).contains(package) {
            selected_packages(scope, selected) == Ok::<Seq<Seq<char>>, WorkspaceFault>(
                seq![package],
            )
        } else {
            selected_packages(scope, selected) is Err
        },
{
    law_a_key_gives_the_value_held_with_it(scope.pipelines, name, config);
    if let Some(package) = selected {
        law_a_key_gives_the_value_held_with_it(
            scope.packages,
            package,
            lookup(scope.packages, package)->0,
        );
    }
}

/// A workspace that loads is what its manifest and its members describe: it
/// keeps its name, its pipelines and its own tasks, has at least the default
/// pipeline, and every pipeline can be planned.
pub proof fn law_a_loaded_workspace_is_what_it_declares(
    root: Seq<char>,
    config: MonorepoConfig,
    members: Seq<Result<Member, WorkspaceError>>,
    directories: Seq<(Seq<char>, Resolution)>,
)
    ensures
        loaded_workspace(root, config, members, directories) matches Ok(scope) ==> {
            &&& config.workspace matches Some(workspace) && scope.name == workspace.name@
                && scope.default_pipeline == workspace.default_pipeline@
            &&& config.package is None
            &&& scope.root == root
            &&& scope.pipelines == config.pipelines@
            &&& scope.workspace_tasks == config.tasks@
            &&& !scope.standalone
            &&& lookup(scope.pipelines, scope.default_pipeline) is Some
            &&& forall|i: int|
                0 <= i < scope.pipelines.len() ==> plan_of(
                    scope,
                    directories,
                    None,
                    Some((#[trigger] scope.pipelines[i]).0),
                    seq![],
                ) is Ok
        },
{
    if let Ok(scope) = loaded_workspace(root, config, members, directories) {
        let problem = pipeline_plan_problem(scope, directories);
        law_the_first_problem_is_reported(scope.pipelines.len(), problem);
        assert forall|i: int| 0 <= i < scope.pipelines.len() implies plan_of(
            scope,
            directories,
            None,
            Some((#[trigger] scope.pipelines[i]).0),
            seq![],
        ) is Ok by {
            assert(problem(i) is None);
        }
    }
}

/// A project of one package that loads is that package alone, with `ci` as its
/// default pipeline, which it has to have.
pub proof fn law_a_loaded_project_is_its_package(
    root: Seq<char>,
    config: MonorepoConfig,
    directories: Seq<(Seq<char>, Resolution)>,
)
    ensures
        loaded_standalone(root, config, directories) matches Ok(scope) ==> {
            &&& config.package matches Some(package) && scope.name == package.name@
                && scope.packages == seq![
                (
                    package.name@,
                    PackageView { name: package.name@, path: root, tasks: config.tasks@ },
                ),
            ]
            &&& scope.root == root
            &&& scope.pipelines == config.pipelines@
            &&& scope.default_pipeline == "ci"@
            &&& lookup(config.pipelines@, "ci"@) is Some
            &&& scope.standalone
        },
{
}

/// The graph of a plan has one entry for each task of it, in order, with what that
/// task depends on.
pub proof fn law_the_graph_has_every_dependency(plan: Seq<PlannedTaskView>, i: int)
    requires
        0 <= i < plan.len(),
    ensures
        edges_of(plan).len() == plan.len(),
        edges_of(plan)[i].0 == (plan[i].package, plan[i].task),
        edges_of(plan)[i].1 == plan[i].depends_on,
{
}

/// The manifest of a workspace decides over every package, however near that is:
/// only where there is none does a package stand alone. Of several the nearest
/// decides, and there is one where any manifest is that of a workspace.
pub proof fn law_the_nearest_workspace_decides(found: Seq<FoundManifest>, i: int, j: int)
    requires
        0 <= j < found.len(),
    ensures
        nearest_workspace(found, i) ==> found[i].config.workspace is Some && (
        found[j].config.workspace is Some ==> i <= j),
        nearest_package(found, i) ==> found[i].config.package is Some && (
        found[j].config.package is Some ==> i <= j) && found[j].config.workspace is None,
        found[j].config.workspace is Some ==> exists|k: int| #[trigger]
            nearest_workspace(found, k),
        nearest_workspace(found, i) && nearest_workspace(found, j) ==> i == j,
    decreases j,
{
    if found[j].config.workspace is Some && !nearest_workspace(found, j) {
        let k = choose|k: int| 0 <= k < j && (#[trigger] found[k]).config.workspace is Some;
        law_the_nearest_workspace_decides(found, i, k);
    }
}

/// A member is refused where it lies outside the root, and where another member has
/// its name already; one that was met before is not taken in again.
pub proof fn law_no_two_members_share_a_name(
    found: Found,
    root: Seq<char>,
    member: Member,
    path: String,
    directories: Seq<(Seq<char>, Resolution)>,
)
    requires
        member.canonical == Ok::<String, IoError>(path),
    ensures
        ({
            let taken = with_member(found, root, Ok(member), directories);
            &&& !is_below(path@, root) ==> taken is Err
            &&& is_below(path@, root) && found.paths.contains(path@) ==> taken == Ok::<
                Found,
                WorkspaceFault,
            >(found)
            &&& is_below(path@, root) && !found.paths.contains(path@) ==> match member_package(
                path@,
                member.manifest,
                directories,
            ) {
                Ok(package) => if keys(found.packages).contains(package.name) {
                    taken == Err::<Found, WorkspaceFault>(
                        WorkspaceFault::DuplicatePackage { name: package.name },
                    )
                } else {
                    taken matches Ok(more) && more.paths == found.paths.push(path@) && lookup(
                        more.packages,
                        package.name,
                    ) is Some
                },
                Err(_) => taken is Err,
            }
        }),
{
    if let Ok(package) = member_package(path@, member.manifest, directories) {
        lemma_held(found.packages, package.name);
        lemma_inserted_is_held(found.packages, package.name, package);
    }
}

proof fn lemma_held<V>(entries: Seq<(Seq<char>, V)>, key: Seq<char>)
    ensures
        lookup(entries, key) is Some <==> keys(entries).contains(key),
    decreases entries.len(),
{
    let all = keys(entries);
    if entries.len() > 0 {
        let rest = entries.drop_first();
        lemma_held(rest, key);
        assert(all.drop_first() =~= keys(rest));
        assert(all[0] == entries[0].0);
        if all.contains(key) && entries[0].0 != key {
            let i = choose|i: int| 0 <= i < all.len() && all[i] == key;
            assert(keys(rest)[i - 1] == key);
        }
        if keys(rest).contains(key) {
            let i = choose|i: int| 0 <= i < keys(rest).len() && keys(rest)[i] == key;
            assert(all[i + 1] == key);
        }
    }
}

proof fn lemma_inserted_is_held<V>(entries: Seq<(Seq<char>, V)>, key: Seq<char>, value: V)
    ensures
        lookup(inserted(entries, key, value), key) is Some,
    decreases entries.len(),
{
    if entries.len() > 0 {
        lemma_inserted_is_held(entries.drop_first(), key, value);
        let after = inserted(entries, key, value);
        assert(after.drop_first() =~= inserted(entries.drop_first(), key, value)
            || after[0].0 == key);
    }
}

} // verus!
