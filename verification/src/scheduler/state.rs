//! The dependency graph of one run: what is ready, what runs, what is done.

use vstd::prelude::*;

use crate::cache::CacheMode;
use crate::project::error::TaskNode;
use crate::project::planned::PlannedTask;
use crate::runner::error::{RunnerError, TaskResult};
use crate::scheduler::error::{SchedulerError, SchedulerFault};
use crate::text::{holds, lemma_text_lt_total};
use crate::text::{lemma_text_lt_transitive, optional_text, precedes, same, text_lt, texts};

verus! {

/// How often `x` occurs in `list`.
pub open spec fn occurrences(list: Seq<usize>, x: int) -> nat
    decreases list.len(),
{
    if list.len() == 0 {
        0
    } else {
        occurrences(list.drop_last(), x) + if list.last() == x {
            1nat
        } else {
            0nat
        }
    }
}

/// How many entries of `list` have a flag that is not set.
pub open spec fn open_entries(list: Seq<usize>, flags: Seq<bool>) -> nat
    decreases list.len(),
{
    if list.len() == 0 {
        0
    } else {
        open_entries(list.drop_last(), flags) + if flags[list.last() as int] {
            0nat
        } else {
            1nat
        }
    }
}

pub proof fn lemma_open_after_set(list: Seq<usize>, flags: Seq<bool>, d: int)
    requires
        0 <= d < flags.len(),
        !flags[d],
        forall|j: int| 0 <= j < list.len() ==> (#[trigger] list[j]) < flags.len(),
    ensures
        open_entries(list, flags.update(d, true)) + occurrences(list, d) == open_entries(
            list,
            flags,
        ),
    decreases list.len(),
{
    if list.len() > 0 {
        let rest = list.drop_last();
        assert forall|j: int| 0 <= j < rest.len() implies (#[trigger] rest[j]) < flags.len() by {
            assert(rest[j] == list[j]);
        }
        assert(list[list.len() - 1] < flags.len());
        lemma_open_after_set(rest, flags, d);
    }
}

pub proof fn lemma_open_zero(list: Seq<usize>, flags: Seq<bool>)
    ensures
        open_entries(list, flags) == 0 <==> forall|j: int|
            0 <= j < list.len() ==> flags[#[trigger] list[j] as int],
    decreases list.len(),
{
    if list.len() > 0 {
        let rest = list.drop_last();
        lemma_open_zero(rest, flags);
        if open_entries(list, flags) == 0 {
            assert forall|j: int| 0 <= j < list.len() implies flags[#[trigger] list[j] as int] by {
                if j < rest.len() {
                    assert(rest[j] == list[j]);
                }
            }
        } else if forall|j: int| 0 <= j < list.len() ==> flags[#[trigger] list[j] as int] {
            assert forall|j: int| 0 <= j < rest.len() implies flags[#[trigger] rest[j] as int] by {
                assert(rest[j] == list[j]);
            }
            assert(flags[list[list.len() - 1] as int]);
        }
    }
}

/// Dependency-graph state for one scheduler run.
///
/// Tasks are known by their place in the plan.
#[derive(Debug)]
pub struct PlanState {
    /// The plan.
    pub tasks: Vec<PlannedTask>,
    /// The dependencies of each task.
    pub dependencies: Vec<Vec<usize>>,
    /// The tasks that wait for each task, as often as they name it.
    pub dependents: Vec<Vec<usize>>,
    /// How many dependencies of each task are still open.
    pub remaining: Vec<usize>,
    pub ready: Vec<bool>,
    pub active: Vec<bool>,
    /// Whether a worker has reported that the task is over.
    pub settled: Vec<bool>,
    /// Whether the task ended well, its cache entry included.
    pub succeeded: Vec<bool>,
    pub cacheable: Vec<bool>,
    pub task_keys: Vec<Option<String>>,
    pub results: Vec<Option<Result<TaskResult, RunnerError>>>,
    pub active_groups: Vec<String>,
    pub stopping: bool,
}

/// The identities of a plan.
pub open spec fn plan_ids(tasks: Seq<PlannedTask>) -> Seq<Seq<char>> {
    tasks.map_values(|t: PlannedTask| t.id@)
}

/// The resource group of a task.
pub open spec fn group_of(task: PlannedTask) -> Option<Seq<char>> {
    optional_text(task.resource_group)
}

impl PlanState {
    /// The flags that decide whether a dependency of task `c` is done: a
    /// finalizer waits until a task is over, any other task until it succeeded.
    pub open spec fn done_flags(self, c: int) -> Seq<bool> {
        if self.tasks@[c].finalizer {
            self.settled@
        } else {
            self.succeeded@
        }
    }

    /// Whether the parts fit together.
    pub open spec fn shaped(self) -> bool {
        let n = self.tasks@.len();
        &&& plan_ids(self.tasks@).no_duplicates()
        &&& self.dependencies@.len() == n
        &&& self.dependents@.len() == n
        &&& self.remaining@.len() == n
        &&& self.ready@.len() == n
        &&& self.active@.len() == n
        &&& self.settled@.len() == n
        &&& self.succeeded@.len() == n
        &&& self.cacheable@.len() == n
        &&& self.task_keys@.len() == n
        &&& self.results@.len() == n
        &&& forall|c: int, j: int|
            0 <= c < n && 0 <= j < self.dependencies@[c]@.len() ==> (
            #[trigger] self.dependencies@[c]@[j]) < n
        &&& forall|d: int, j: int|
            0 <= d < n && 0 <= j < self.dependents@[d]@.len() ==> (
            #[trigger] self.dependents@[d]@[j]) < n
        &&& forall|c: int, d: int|
            0 <= c < n && 0 <= d < n ==> #[trigger] occurrences(self.dependents@[d]@, c)
                == #[trigger] occurrences(self.dependencies@[c]@, d)
        &&& forall|c: int|
            0 <= c < n ==> (#[trigger] self.dependencies@[c])@.len()
                == self.tasks@[c].depends_on@.len()
        &&& forall|c: int, j: int|
            0 <= c < n && 0 <= j < self.dependencies@[c]@.len() ==> self.tasks@[(
            #[trigger] self.dependencies@[c]@[j]) as int].id@ == self.tasks@[c].depends_on@[j].id@
    }

    /// Whether task `c` is in just one state, and its counter is right.
    pub open spec fn task_fits(self, c: int) -> bool {
        &&& self.remaining@[c] == open_entries(self.dependencies@[c]@, self.done_flags(c))
        &&& (self.ready@[c] || self.active@[c] || self.settled@[c]) ==> self.remaining@[c] == 0
        &&& !(self.ready@[c] && self.active@[c])
        &&& !(self.ready@[c] && self.settled@[c])
        &&& !(self.active@[c] && self.settled@[c])
        &&& self.succeeded@[c] ==> self.settled@[c]
        &&& self.results@[c] is Some ==> self.settled@[c]
        &&& self.active@[c] ==> match group_of(self.tasks@[c]) {
            Some(group) => texts(self.active_groups@).contains(group),
            None => true,
        }
    }

    /// Whether every task is in just one state, and no two tasks that run share
    /// a group.
    pub open spec fn fits(self) -> bool {
        &&& self.shaped()
        &&& forall|c: int| 0 <= c < self.tasks@.len() ==> #[trigger] self.task_fits(c)
        &&& forall|a: int, b: int|
            0 <= a < b < self.tasks@.len() && #[trigger] self.active@[a]
                && #[trigger] self.active@[b] && group_of(self.tasks@[a]) is Some ==> group_of(
                self.tasks@[a],
            ) != group_of(self.tasks@[b])
    }

    /// Whether nothing keeps task `c` from its turn: without open dependencies
    /// it waits, runs, or is over, and if it is over it ended well.
    pub open spec fn task_flows(self, c: int) -> bool {
        &&& self.remaining@[c] == 0 ==> self.ready@[c] || self.active@[c] || self.settled@[c]
        &&& self.settled@[c] ==> self.succeeded@[c] && self.results@[c] is Some
    }

    /// Whether a task that runs holds `group`.
    pub open spec fn held(self, group: Seq<char>) -> bool {
        exists|c: int|
            0 <= c < self.tasks@.len() && #[trigger] self.active@[c] && group_of(self.tasks@[c])
                == Some(group)
    }

    /// Whether a run that is not stopping goes on: nothing keeps a task from
    /// its turn, and only tasks that run hold groups.
    pub open spec fn flows(self) -> bool {
        !self.stopping ==> {
            &&& forall|c: int| 0 <= c < self.tasks@.len() ==> #[trigger] self.task_flows(c)
            &&& forall|group: Seq<char>| #[trigger]
                texts(self.active_groups@).contains(group) ==> self.held(group)
        }
    }

    /// The invariant of a run.
    pub open spec fn wf(self) -> bool {
        &&& self.fits()
        &&& self.flows()
    }

    /// Whether some task runs.
    pub open spec fn any_active(self) -> bool {
        exists|c: int| 0 <= c < self.tasks@.len() && #[trigger] self.active@[c]
    }

    /// Whether some task could run.
    pub open spec fn any_ready(self) -> bool {
        exists|c: int| 0 <= c < self.tasks@.len() && #[trigger] self.ready@[c]
    }

    /// Whether finalizers may start: when stopping, once no other task runs;
    /// otherwise once every other task has a result.
    pub open spec fn finalizers_may_start(self) -> bool {
        if self.stopping {
            forall|c: int|
                0 <= c < self.tasks@.len() && #[trigger] self.active@[c] ==> self.tasks@[c].finalizer
        } else {
            forall|c: int|
                0 <= c < self.tasks@.len() && !(#[trigger] self.tasks@[c]).finalizer
                    ==> self.results@[c] is Some
        }
    }

    /// Whether task `c` may start now.
    pub open spec fn eligible(self, c: int) -> bool {
        &&& 0 <= c < self.tasks@.len()
        &&& self.ready@[c]
        &&& self.stopping ==> self.tasks@[c].finalizer
        &&& self.tasks@[c].finalizer ==> self.finalizers_may_start()
        &&& match group_of(self.tasks@[c]) {
            Some(group) => !texts(self.active_groups@).contains(group),
            None => true,
        }
    }

    /// Whether `c` is the task to start next: of those that may start, the
    /// first by name.
    pub open spec fn is_next(self, c: int) -> bool {
        &&& self.eligible(c)
        &&& forall|o: int|
            #[trigger] self.eligible(o) && o != c ==> text_lt(
                self.tasks@[c].id@,
                self.tasks@[o].id@,
            )
    }

    /// Whether task `c` may use the cache.
    pub open spec fn may_cache(self, c: int, mode: CacheMode) -> bool {
        &&& self.tasks@[c].cache
        &&& mode != CacheMode::NoCache
        &&& forall|j: int|
            0 <= j < self.dependencies@[c]@.len()
                ==> self.cacheable@[#[trigger] self.dependencies@[c]@[j] as int]
    }

    /// Whether everything but the listed parts is the same in `other`.
    pub open spec fn same_plan(self, other: PlanState) -> bool {
        &&& self.tasks == other.tasks
        &&& self.dependencies == other.dependencies
        &&& self.dependents == other.dependents
    }
}

/// The first dependency, in plan order, that no task of the plan has.
pub open spec fn unresolved(tasks: Seq<PlannedTask>, count: nat) -> Option<SchedulerFault>
    decreases count,
{
    if count == 0 {
        None
    } else {
        match unresolved(tasks, (count - 1) as nat) {
            Some(fault) => Some(fault),
            None => unresolved_of(tasks, count - 1, tasks[count - 1].depends_on@.len()),
        }
    }
}

/// The first of `count` dependencies of task `c` that no task of the plan has.
pub open spec fn unresolved_of(tasks: Seq<PlannedTask>, c: int, count: nat) -> Option<
    SchedulerFault,
>
    decreases count,
{
    if count == 0 {
        None
    } else {
        match unresolved_of(tasks, c, (count - 1) as nat) {
            Some(fault) => Some(fault),
            None => {
                let dependency = tasks[c].depends_on@[count - 1].id@;
                if plan_ids(tasks).contains(dependency) {
                    None
                } else {
                    Some(
                        SchedulerFault::UnresolvedDependency { task: tasks[c].id@, dependency },
                    )
                }
            },
        }
    }
}

proof fn lemma_unresolved_stays(tasks: Seq<PlannedTask>, k: nat, count: nat)
    requires
        k <= count,
        unresolved(tasks, k) is Some,
    ensures
        unresolved(tasks, count) == unresolved(tasks, k),
    decreases count,
{
    if k < count {
        lemma_unresolved_stays(tasks, k, (count - 1) as nat);
    }
}

proof fn lemma_unresolved_of_stays(tasks: Seq<PlannedTask>, c: int, k: nat, count: nat)
    requires
        k <= count,
        unresolved_of(tasks, c, k) is Some,
    ensures
        unresolved_of(tasks, c, count) == unresolved_of(tasks, c, k),
    decreases count,
{
    if k < count {
        lemma_unresolved_of_stays(tasks, c, k, (count - 1) as nat);
    }
}

/// The place of the task `id` in a plan.
fn place_of(tasks: &Vec<PlannedTask>, id: &str) -> (r: Option<usize>)
    ensures
        match r {
            Some(i) => i < tasks@.len() && tasks@[i as int].id@ == id@,
            None => !plan_ids(tasks@).contains(id@),
        },
        r is Some == plan_ids(tasks@).contains(id@),
{
    let mut i: usize = 0;
    while i < tasks.len()
        invariant
            i <= tasks@.len(),
            forall|j: int| 0 <= j < i ==> plan_ids(tasks@)[j] != id@,
        decreases tasks.len() - i,
    {
        if same(tasks[i].id.as_str(), id) {
            assert(plan_ids(tasks@)[i as int] == id@);
            return Some(i);
        }
        i += 1;
    }
    None
}

/// The places of the dependencies of one task.
#[verifier::loop_isolation(false)]
fn dependency_places(tasks: &Vec<PlannedTask>, c: usize) -> (r: Result<Vec<usize>, SchedulerError>)
    requires
        c < tasks@.len(),
    ensures
        match r {
            Ok(places) => {
                &&& unresolved_of(tasks@, c as int, tasks@[c as int].depends_on@.len()) is None
                &&& places@.len() == tasks@[c as int].depends_on@.len()
                &&& forall|j: int|
                    0 <= j < places@.len() ==> (#[trigger] places@[j]) < tasks@.len()
                        && tasks@[places@[j] as int].id@ == tasks@[c as int].depends_on@[j].id@
            },
            Err(e) => unresolved_of(tasks@, c as int, tasks@[c as int].depends_on@.len()) == Some(
                e@,
            ),
        },
{
    let mut places: Vec<usize> = Vec::new();
    let mut j: usize = 0;
    while j < tasks[c].depends_on.len()
        invariant
            j <= tasks@[c as int].depends_on@.len(),
            places@.len() == j,
            unresolved_of(tasks@, c as int, j as nat) is None,
            forall|k: int|
                0 <= k < j ==> (#[trigger] places@[k]) < tasks@.len()
                    && tasks@[places@[k] as int].id@ == tasks@[c as int].depends_on@[k].id@,
        decreases tasks@[c as int].depends_on@.len() - j,
    {
        match place_of(tasks, tasks[c].depends_on[j].id.as_str()) {
            Some(place) => {
                places.push(place);
            },
            None => {
                proof {
                    lemma_unresolved_of_stays(
                        tasks@,
                        c as int,
                        j as nat + 1,
                        tasks@[c as int].depends_on@.len(),
                    );
                }
                return Err(
                    SchedulerError::UnresolvedDependency {
                        task: tasks[c].node(),
                        dependency: tasks[c].depends_on[j].copy(),
                    },
                );
            },
        }
        j += 1;
    }
    Ok(places)
}

/// How many of `places[..count]` equal `d`, for each of `n` places.
#[verifier::loop_isolation(false)]
fn add_dependent(dependents: &mut Vec<Vec<usize>>, places: &Vec<usize>, c: usize)
    requires
        forall|j: int|
            0 <= j < places@.len() ==> (#[trigger] places@[j]) < old(dependents)@.len(),
        c < old(dependents)@.len(),
    ensures
        final(dependents)@.len() == old(dependents)@.len(),
        forall|d: int, o: int|
            0 <= d < old(dependents)@.len() ==> #[trigger] occurrences(
                final(dependents)@[d]@,
                o,
            ) == occurrences(old(dependents)@[d]@, o) + if o == c {
                occurrences(places@, d)
            } else {
                0
            },
        forall|d: int, j: int|
            0 <= d < old(dependents)@.len() && 0 <= j < final(dependents)@[d]@.len() ==> (
            #[trigger] final(dependents)@[d]@[j]) == c || exists|k: int|
                0 <= k < old(dependents)@[d]@.len() && (#[trigger] old(dependents)@[d]@[k])
                    == final(dependents)@[d]@[j],
{
    let ghost before = dependents@;
    let mut k: usize = 0;
    assert(places@.take(0) =~= seq![]);
    while k < places.len()
        invariant
            k <= places@.len(),
            dependents@.len() == before.len(),
            forall|d: int, o: int|
                0 <= d < before.len() ==> #[trigger] occurrences(dependents@[d]@, o)
                    == occurrences(before[d]@, o) + if o == c {
                    occurrences(places@.take(k as int), d)
                } else {
                    0
                },
            forall|d: int, j: int|
                0 <= d < before.len() && 0 <= j < dependents@[d]@.len() ==> (
                #[trigger] dependents@[d]@[j]) == c || exists|q: int|
                    0 <= q < before[d]@.len() && (#[trigger] before[d]@[q]) == dependents@[d]@[j],
        decreases places.len() - k,
    {
        let place: usize = places[k];
        let ghost now = dependents@;
        assert(places@.take(k as int + 1).drop_last() =~= places@.take(k as int));
        assert(places@.take(k as int + 1).last() == place);
        let mut list: Vec<usize> = Vec::new();
        core::mem::swap(&mut list, &mut dependents[place]);
        let ghost was = list@;
        list.push(c);
        assert(list@.drop_last() =~= was);
        dependents.set(place, list);
        assert(dependents@ =~= now.update(place as int, list));
        assert forall|d: int, o: int| 0 <= d < before.len() implies #[trigger] occurrences(
            dependents@[d]@,
            o,
        ) == occurrences(before[d]@, o) + if o == c {
            occurrences(places@.take(k as int + 1), d)
        } else {
            0
        } by {
            assert(occurrences(now[d]@, o) == occurrences(before[d]@, o) + if o == c {
                occurrences(places@.take(k as int), d)
            } else {
                0
            });
        }
        assert forall|d: int, j: int|
            0 <= d < before.len() && 0 <= j < dependents@[d]@.len() implies (
        #[trigger] dependents@[d]@[j]) == c || exists|q: int|
            0 <= q < before[d]@.len() && (#[trigger] before[d]@[q]) == dependents@[d]@[j] by {
            if d != place {
                assert(dependents@[d] == now[d]);
                assert(now[d]@[j] == dependents@[d]@[j]);
            } else if j < was.len() {
                assert(now[d]@[j] == dependents@[d]@[j]);
            }
        }
        k += 1;
    }
    assert(places@.take(k as int) =~= places@);
}

fn flags(n: usize) -> (r: Vec<bool>)
    ensures
        r@.len() == n,
        forall|i: int| 0 <= i < n ==> !#[trigger] r@[i],
{
    let mut out: Vec<bool> = Vec::new();
    let mut i: usize = 0;
    while i < n
        invariant
            i <= n,
            out@.len() == i,
            forall|j: int| 0 <= j < i ==> !#[trigger] out@[j],
        decreases n - i,
    {
        out.push(false);
        i += 1;
    }
    out
}

proof fn lemma_all_open(list: Seq<usize>, flags: Seq<bool>)
    requires
        forall|j: int| 0 <= j < list.len() ==> !flags[#[trigger] list[j] as int],
    ensures
        open_entries(list, flags) == list.len(),
    decreases list.len(),
{
    if list.len() > 0 {
        let rest = list.drop_last();
        assert forall|j: int| 0 <= j < rest.len() implies !flags[#[trigger] rest[j] as int] by {
            assert(rest[j] == list[j]);
        }
        assert(!flags[list[list.len() - 1] as int]);
        lemma_all_open(rest, flags);
    }
}

impl PlanState {
    /// The state before anything has run.
    #[verifier::loop_isolation(false)]
    pub fn new(plan: Vec<PlannedTask>) -> (r: Result<PlanState, SchedulerError>)
        requires
            plan_ids(plan@).no_duplicates(),
        ensures
            match r {
                Ok(state) => {
                    &&& unresolved(plan@, plan@.len()) is None
                    &&& state.wf()
                    &&& state.tasks == plan
                    &&& !state.stopping
                    &&& state.active_groups@.len() == 0
                    &&& forall|c: int|
                        0 <= c < plan@.len() ==> {
                            &&& #[trigger] state.ready@[c] == (plan@[c].depends_on@.len() == 0)
                            &&& !state.active@[c]
                            &&& !state.settled@[c]
                            &&& !state.cacheable@[c]
                            &&& state.task_keys@[c] is None
                            &&& state.results@[c] is None
                        }
                },
                Err(e) => unresolved(plan@, plan@.len()) == Some(e@),
            },
    {
        let n: usize = plan.len();
        let mut dependencies: Vec<Vec<usize>> = Vec::new();
        let mut dependents: Vec<Vec<usize>> = Vec::new();
        let mut i: usize = 0;
        while i < n
            invariant
                i <= n,
                dependents@.len() == i,
                forall|d: int| 0 <= d < i ==> (#[trigger] dependents@[d])@.len() == 0,
            decreases n - i,
        {
            dependents.push(Vec::new());
            i += 1;
        }
        let mut remaining: Vec<usize> = Vec::new();
        let mut ready: Vec<bool> = Vec::new();
        let mut task_keys: Vec<Option<String>> = Vec::new();
        let mut results: Vec<Option<Result<TaskResult, RunnerError>>> = Vec::new();
        let mut c: usize = 0;
        while c < n
            invariant
                c <= n,
                unresolved(plan@, c as nat) is None,
                dependencies@.len() == c,
                dependents@.len() == n,
                remaining@.len() == c,
                ready@.len() == c,
                task_keys@.len() == c,
                results@.len() == c,
                forall|k: int|
                    0 <= k < c ==> {
                        &&& (#[trigger] dependencies@[k])@.len() == plan@[k].depends_on@.len()
                        &&& remaining@[k] == plan@[k].depends_on@.len()
                        &&& ready@[k] == (plan@[k].depends_on@.len() == 0)
                        &&& task_keys@[k] is None
                        &&& results@[k] is None
                    },
                forall|k: int, j: int|
                    0 <= k < c && 0 <= j < dependencies@[k]@.len() ==> (
                    #[trigger] dependencies@[k]@[j]) < n && plan@[dependencies@[k]@[j] as int].id@
                        == plan@[k].depends_on@[j].id@,
                forall|d: int, j: int|
                    0 <= d < n && 0 <= j < dependents@[d]@.len() ==> (
                    #[trigger] dependents@[d]@[j]) < n,
                forall|k: int, d: int|
                    0 <= k < c && 0 <= d < n ==> #[trigger] occurrences(dependents@[d]@, k)
                        == #[trigger] occurrences(dependencies@[k]@, d),
                forall|k: int, d: int|
                    c <= k && 0 <= d < n ==> #[trigger] occurrences(dependents@[d]@, k) == 0,
            decreases n - c,
        {
            let places = match dependency_places(&plan, c) {
                Ok(places) => places,
                Err(e) => {
                    proof {
                        lemma_unresolved_stays(plan@, c as nat + 1, n as nat);
                    }
                    return Err(e);
                },
            };
            let ghost before = dependents@;
            let ghost (old_remaining, old_ready, old_keys, old_results) = (
                remaining@,
                ready@,
                task_keys@,
                results@,
            );
            add_dependent(&mut dependents, &places, c);
            remaining.push(places.len());
            ready.push(places.len() == 0);
            task_keys.push(None);
            results.push(None);
            let ghost earlier = dependencies@;
            dependencies.push(places);
            assert forall|k: int| 0 <= k < c + 1 implies {
                &&& (#[trigger] dependencies@[k])@.len() == plan@[k].depends_on@.len()
                &&& remaining@[k] == plan@[k].depends_on@.len()
                &&& ready@[k] == (plan@[k].depends_on@.len() == 0)
                &&& task_keys@[k] is None
                &&& results@[k] is None
            } by {
                if k < c {
                    assert(dependencies@[k] == earlier[k]);
                    assert(remaining@[k] == old_remaining[k]);
                    assert(ready@[k] == old_ready[k]);
                    assert(task_keys@[k] == old_keys[k]);
                    assert(results@[k] == old_results[k]);
                }
            }
            assert forall|k: int, d: int| 0 <= k < c + 1 && 0 <= d < n implies
                #[trigger] occurrences(dependents@[d]@, k) == #[trigger] occurrences(
                dependencies@[k]@,
                d,
            ) by {
                assert(occurrences(dependents@[d]@, k) == occurrences(before[d]@, k) + if k == c {
                    occurrences(places@, d)
                } else {
                    0
                });
                if k < c {
                    assert(dependencies@[k] == earlier[k]);
                    assert(occurrences(before[d]@, k) == occurrences(earlier[k]@, d));
                }
            }
            assert forall|d: int, j: int|
                0 <= d < n && 0 <= j < dependents@[d]@.len() implies (
            #[trigger] dependents@[d]@[j]) < n by {
                if dependents@[d]@[j] != c {
                    let q = choose|q: int|
                        0 <= q < before[d]@.len() && (#[trigger] before[d]@[q])
                            == dependents@[d]@[j];
                    assert(before[d]@[q] < n);
                }
            }
            c += 1;
        }
        let ghost ids = plan_ids(plan@);
        let state = PlanState {
            tasks: plan,
            dependencies,
            dependents,
            remaining,
            ready,
            active: flags(n),
            settled: flags(n),
            succeeded: flags(n),
            cacheable: flags(n),
            task_keys,
            results,
            active_groups: Vec::new(),
            stopping: false,
        };
        assert forall|k: int| 0 <= k < n implies #[trigger] state.task_fits(k) by {
            assert(state.dependencies@[k]@.len() == state.tasks@[k].depends_on@.len());
            assert forall|j: int| 0 <= j < state.dependencies@[k]@.len() implies
                !state.done_flags(k)[#[trigger] state.dependencies@[k]@[j] as int] by {
                assert(state.dependencies@[k]@[j] < n);
            }
            lemma_all_open(state.dependencies@[k]@, state.done_flags(k));
        }
        assert forall|k: int| 0 <= k < n implies {
            &&& #[trigger] state.ready@[k] == (state.tasks@[k].depends_on@.len() == 0)
            &&& !state.active@[k]
            &&& !state.settled@[k]
            &&& !state.cacheable@[k]
            &&& state.task_keys@[k] is None
            &&& state.results@[k] is None
        } by {
            assert(state.dependencies@[k]@.len() == state.tasks@[k].depends_on@.len());
        }
        assert(state.shaped());
        assert(state.fits());
        assert forall|k: int| 0 <= k < n implies #[trigger] state.task_flows(k) by {
            assert(state.dependencies@[k]@.len() == state.tasks@[k].depends_on@.len());
            assert(!state.settled@[k]);
        }
        assert(state.wf());
        Ok(state)
    }

    /// The place of a task that the plan has.
    pub(crate) fn place(&self, node: &TaskNode) -> (r: usize)
        requires
            self.shaped(),
            plan_ids(self.tasks@).contains(node.id@),
        ensures
            r < self.tasks@.len(),
            self.tasks@[r as int].id@ == node.id@,
            forall|c: int|
                0 <= c < self.tasks@.len() && (#[trigger] self.tasks@[c]).id@ == node.id@ ==> c
                    == r,
    {
        match place_of(&self.tasks, node.id.as_str()) {
            Some(i) => {
                assert forall|c: int|
                    0 <= c < self.tasks@.len() && (#[trigger] self.tasks@[c]).id@
                        == node.id@ implies c == i by {
                    assert(plan_ids(self.tasks@)[c] == plan_ids(self.tasks@)[i as int]);
                }
                i
            },
            None => {
                assert(false);
                0
            },
        }
    }

    /// How many tasks run.
    pub fn active_count(&self) -> (r: usize)
        ensures
            r == count_set(self.active@),
    {
        count_true(&self.active)
    }

    /// How many tasks could run.
    pub fn ready_count(&self) -> (r: usize)
        ensures
            r == count_set(self.ready@),
    {
        count_true(&self.ready)
    }

    /// Whether some running task holds a resource group.
    pub fn holds_group(&self, group: &str) -> (r: bool)
        ensures
            r == texts(self.active_groups@).contains(group@),
    {
        holds(&self.active_groups, group)
    }

    /// Whether there is work to do or tasks in flight.
    pub fn has_active_or_ready(&self) -> (r: bool)
        requires
            self.wf(),
        ensures
            r == (self.any_active() || self.any_ready()),
    {
        let mut c: usize = 0;
        while c < self.tasks.len()
            invariant
                c <= self.tasks@.len(),
                self.wf(),
                forall|k: int| 0 <= k < c ==> !#[trigger] self.active@[k],
                forall|k: int| 0 <= k < c ==> !#[trigger] self.ready@[k],
            decreases self.tasks.len() - c,
        {
            if self.active[c] || self.ready[c] {
                assert(self.active@[c as int] || self.ready@[c as int]);
                return true;
            }
            c += 1;
        }
        false
    }

    /// Whether any normal task has no result yet.
    pub fn has_normal_uncompleted(&self) -> (r: bool)
        requires
            self.wf(),
        ensures
            r == exists|c: int|
                0 <= c < self.tasks@.len() && !(#[trigger] self.tasks@[c]).finalizer
                    && self.results@[c] is None,
    {
        let mut c: usize = 0;
        while c < self.tasks.len()
            invariant
                c <= self.tasks@.len(),
                self.wf(),
                forall|k: int|
                    0 <= k < c && !(#[trigger] self.tasks@[k]).finalizer ==> self.results@[k]
                        is Some,
            decreases self.tasks.len() - c,
        {
            if !self.tasks[c].finalizer && self.results[c].is_none() {
                assert(!self.tasks@[c as int].finalizer);
                return true;
            }
            c += 1;
        }
        false
    }

    /// Whether a finalizer may start now.
    pub fn finalizers_allowed(&self) -> (r: bool)
        requires
            self.wf(),
        ensures
            r == self.finalizers_may_start(),
    {
        if !self.stopping {
            return !self.has_normal_uncompleted();
        }
        let mut c: usize = 0;
        while c < self.tasks.len()
            invariant
                c <= self.tasks@.len(),
                self.wf(),
                self.stopping,
                forall|k: int|
                    0 <= k < c && #[trigger] self.active@[k] ==> self.tasks@[k].finalizer,
            decreases self.tasks.len() - c,
        {
            if self.active[c] && !self.tasks[c].finalizer {
                assert(self.active@[c as int]);
                return false;
            }
            c += 1;
        }
        true
    }

    /// Whether a task of the plan is a finalizer.
    pub fn is_finalizer(&self, node: &TaskNode) -> (r: bool)
        requires
            self.wf(),
            plan_ids(self.tasks@).contains(node.id@),
        ensures
            forall|c: int|
                0 <= c < self.tasks@.len() && (#[trigger] self.tasks@[c]).id@ == node.id@ ==> r
                    == self.tasks@[c].finalizer,
    {
        let c: usize = self.place(node);
        self.tasks[c].finalizer
    }

    /// The place of the task to start next.
    #[verifier::loop_isolation(false)]
    pub fn next_place(&self) -> (r: Option<usize>)
        requires
            self.wf(),
        ensures
            match r {
                Some(c) => self.is_next(c as int),
                None => forall|c: int| !#[trigger] self.eligible(c),
            },
    {
        let allowed: bool = self.finalizers_allowed();
        let mut best: Option<usize> = None;
        let mut c: usize = 0;
        while c < self.tasks.len()
            invariant
                c <= self.tasks@.len(),
                match best {
                    Some(b) => b < c && self.eligible(b as int) && forall|o: int|
                        0 <= o < c && o != b && #[trigger] self.eligible(o) ==> text_lt(
                            self.tasks@[b as int].id@,
                            self.tasks@[o].id@,
                        ),
                    None => forall|o: int| 0 <= o < c ==> !#[trigger] self.eligible(o),
                },
            decreases self.tasks.len() - c,
        {
            let free: bool = match &self.tasks[c].resource_group {
                Some(group) => !holds(&self.active_groups, group.as_str()),
                None => true,
            };
            let fits: bool = self.ready[c] && (!self.stopping || self.tasks[c].finalizer) && (
            !self.tasks[c].finalizer || allowed) && free;
            assert(fits == self.eligible(c as int));
            if fits {
                let ghost held = best;
                let better: bool = match best {
                    Some(b) => precedes(self.tasks[c].id.as_str(), self.tasks[b].id.as_str()),
                    None => true,
                };
                proof {
                    if let Some(b) = held {
                        assert(plan_ids(self.tasks@)[b as int] != plan_ids(self.tasks@)[c as int]);
                        lemma_text_lt_total(
                            self.tasks@[c as int].id@,
                            self.tasks@[b as int].id@,
                        );
                        if better {
                            assert forall|o: int|
                                0 <= o < c && #[trigger] self.eligible(o) implies text_lt(
                                self.tasks@[c as int].id@,
                                self.tasks@[o].id@,
                            ) by {
                                if o != b {
                                    lemma_text_lt_transitive(
                                        self.tasks@[c as int].id@,
                                        self.tasks@[b as int].id@,
                                        self.tasks@[o].id@,
                                    );
                                }
                            }
                        }
                    }
                }
                if better {
                    best = Some(c);
                }
            }
            c += 1;
        }
        best
    }

    /// Pick the next task to dispatch, respecting resource groups, stopping,
    /// and finalizer sequencing.
    pub fn next_ready(&self) -> (r: Option<TaskNode>)
        requires
            self.wf(),
        ensures
            match r {
                Some(node) => exists|c: int|
                    #[trigger] self.is_next(c) && self.tasks@[c].id@ == node.id@,
                None => forall|c: int| !#[trigger] self.eligible(c),
            },
    {
        match self.next_place() {
            Some(c) => {
                assert(self.is_next(c as int));
                Some(self.tasks[c].node())
            },
            None => None,
        }
    }

    /// Whether the given task can participate in caching.
    pub fn can_cache(&self, node: &TaskNode, cache_mode: CacheMode) -> (r: bool)
        requires
            self.wf(),
            plan_ids(self.tasks@).contains(node.id@),
        ensures
            forall|c: int|
                0 <= c < self.tasks@.len() && (#[trigger] self.tasks@[c]).id@ == node.id@ ==> r
                    == self.may_cache(c, cache_mode),
    {
        let c: usize = self.place(node);
        if !self.tasks[c].cache || cache_mode == CacheMode::NoCache {
            return false;
        }
        let mut j: usize = 0;
        while j < self.dependencies[c].len()
            invariant
                c < self.tasks@.len(),
                self.wf(),
                j <= self.dependencies@[c as int]@.len(),
                self.tasks@[c as int].id@ == node.id@,
                forall|o: int|
                    0 <= o < self.tasks@.len() && (#[trigger] self.tasks@[o]).id@ == node.id@ ==> o
                        == c,
                forall|k: int|
                    0 <= k < j ==> self.cacheable@[#[trigger] self.dependencies@[c as int]@[k] as int],
            decreases self.dependencies@[c as int]@.len() - j,
        {
            let d: usize = self.dependencies[c][j];
            assert(d < self.tasks@.len());
            if !self.cacheable[d] {
                assert(!self.cacheable@[self.dependencies@[c as int]@[j as int] as int]);
                return false;
            }
            j += 1;
        }
        true
    }

    /// The cache keys of the dependencies of task `c`.
    pub open spec fn keys_of(self, c: int) -> Seq<Seq<char>> {
        self.dependencies@[c]@.map_values(
            |d: usize| optional_text(self.task_keys@[d as int])->0,
        )
    }

    /// Whether every dependency of task `c` has a cache key.
    pub open spec fn has_keys(self, c: int) -> bool {
        forall|j: int|
            0 <= j < self.dependencies@[c]@.len()
                ==> self.task_keys@[#[trigger] self.dependencies@[c]@[j] as int] is Some
    }

    /// The cache keys of every dependency.
    pub fn dependency_keys(&self, node: &TaskNode) -> (r: Vec<String>)
        requires
            self.wf(),
            plan_ids(self.tasks@).contains(node.id@),
            forall|c: int|
                0 <= c < self.tasks@.len() && (#[trigger] self.tasks@[c]).id@ == node.id@
                    ==> self.has_keys(c),
        ensures
            forall|c: int|
                0 <= c < self.tasks@.len() && (#[trigger] self.tasks@[c]).id@ == node.id@ ==> texts(
                    r@,
                ) == self.keys_of(c),
    {
        let c: usize = self.place(node);
        let mut out: Vec<String> = Vec::new();
        let mut j: usize = 0;
        assert(texts(out@) =~= self.keys_of(c as int).take(0));
        while j < self.dependencies[c].len()
            invariant
                c < self.tasks@.len(),
                self.wf(),
                self.has_keys(c as int),
                j <= self.dependencies@[c as int]@.len(),
                texts(out@) == self.keys_of(c as int).take(j as int),
            decreases self.dependencies@[c as int]@.len() - j,
        {
            let d: usize = self.dependencies[c][j];
            assert(d < self.tasks@.len());
            assert(self.task_keys@[d as int] is Some);
            if let Some(key) = &self.task_keys[d] {
                let ghost before = texts(out@);
                assert(self.keys_of(c as int)[j as int] == key@);
                out.push(key.clone());
                assert(texts(out@) =~= before.push(key@));
            }
            j += 1;
            assert(texts(out@) =~= self.keys_of(c as int).take(j as int));
        }
        assert(texts(out@) =~= self.keys_of(c as int));
        out
    }
}

/// How many flags are set.
pub open spec fn count_set(flags: Seq<bool>) -> nat
    decreases flags.len(),
{
    if flags.len() == 0 {
        0
    } else {
        count_set(flags.drop_last()) + if flags.last() {
            1nat
        } else {
            0nat
        }
    }
}

proof fn lemma_count_bound(flags: Seq<bool>)
    ensures
        count_set(flags) <= flags.len(),
    decreases flags.len(),
{
    if flags.len() > 0 {
        lemma_count_bound(flags.drop_last());
    }
}

fn count_true(flags: &Vec<bool>) -> (r: usize)
    ensures
        r == count_set(flags@),
{
    let mut count: usize = 0;
    let mut i: usize = 0;
    while i < flags.len()
        invariant
            i <= flags@.len(),
            count == count_set(flags@.take(i as int)),
            count <= i,
        decreases flags.len() - i,
    {
        assert(flags@.take(i as int + 1).drop_last() =~= flags@.take(i as int));
        assert(flags@.take(i as int + 1).last() == flags@[i as int]);
        if flags[i] {
            count += 1;
        }
        i += 1;
    }
    assert(flags@.take(i as int) =~= flags@);
    count
}

} // verus!
