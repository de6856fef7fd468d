//! What a worker and a run promise of their outcomes.

use vstd::prelude::*;

use crate::cache::CacheMode;
use crate::cache::error::CacheError;
use crate::events::TaskStatus;
use crate::project::planned::{PlannedTask, PlannedTaskView};
use crate::runner::error::{RunnerError, TaskResult};
use crate::scheduler::error::SchedulerFault;
use crate::scheduler::run::{first_fault, Scheduler};
use crate::scheduler::state::{count_set, plan_ids, unresolved, unresolved_of, PlanState};
use crate::scheduler::summary::{count_where, summarizes, ExecutionSummary};
use crate::scheduler::transition::without;
use crate::scheduler::worker::{next_work, ReportView, WorkActionView, WorkEvent, WorkPhaseView};
use crate::sublist::{is_picked, lemma_picked_more, lemma_picked_none};

verus! {

/// A task that may use the cache has its key computed before anything else; any
/// other is started at once, as its first attempt.
pub proof fn law_a_key_is_computed_only_for_the_cache(
    task: PlannedTaskView,
    can_cache: bool,
    force: bool,
)
    requires
        task.retries < u32::MAX,
    ensures
        ({
            let (next, action) = next_work(
                task,
                can_cache,
                force,
                WorkPhaseView::Fresh,
                WorkEvent::Begin,
            );
            if can_cache {
                action is ComputeKey
            } else {
                action == (WorkActionView::Announce {
                    attempt: 1,
                    max_attempts: (task.retries + 1) as u32,
                })
            }
        }),
{
}

/// A key is looked up unless the run is forced. What is found is the result, and
/// nothing is run; where nothing is found the task is run. A failure to compute
/// the key or to look it up is reported.
pub proof fn law_the_cache_is_asked_first_unless_forced(
    task: PlannedTaskView,
    force: bool,
    key: String,
    hit: TaskResult,
    error: CacheError,
)
    ensures
        ({
            let (looking, action) = next_work(
                task,
                true,
                force,
                WorkPhaseView::Keying,
                WorkEvent::Keyed(Ok(key)),
            );
            &&& force ==> action is Announce
            &&& !force ==> action is LookUp
            &&& !force ==> next_work(
                task,
                true,
                force,
                looking,
                WorkEvent::LookedUp(Ok(Some(hit))),
            ).1 == WorkActionView::Report(
                ReportView::Finished { result: Ok(hit@), key: Some(key@), cache_error: None },
            )
            &&& !force ==> next_work(
                task,
                true,
                force,
                looking,
                WorkEvent::LookedUp(Ok(None)),
            ).1 is Announce
            &&& !force ==> next_work(
                task,
                true,
                force,
                looking,
                WorkEvent::LookedUp(Err(error)),
            ).1 == WorkActionView::Report(ReportView::CacheFailed(error@))
        }),
        next_work(task, true, force, WorkPhaseView::Keying, WorkEvent::Keyed(Err(error))).1
            == WorkActionView::Report(ReportView::CacheFailed(error@)),
{
}

/// A task that succeeded with a key is stored, and stored anew where the run is
/// forced; whether or not that works, its result is reported, with the failure
/// to store it. Without a key the result is reported at once.
pub proof fn law_a_success_is_stored_and_reported(
    task: PlannedTaskView,
    force: bool,
    key: Seq<char>,
    attempt: u32,
    result: TaskResult,
    stored: Result<(), CacheError>,
)
    ensures
        ({
            let (storing, action) = next_work(
                task,
                true,
                force,
                WorkPhaseView::Running { key: Some(key), attempt },
                WorkEvent::Executed(Ok(result)),
            );
            &&& action == (WorkActionView::Store { refresh: force })
            &&& next_work(task, true, force, storing, WorkEvent::Stored(stored)).1
                == WorkActionView::Report(
                ReportView::Finished {
                    result: Ok(result@),
                    key: Some(key),
                    cache_error: match stored {
                        Ok(_) => None,
                        Err(error) => Some(error@),
                    },
                },
            )
        }),
        next_work(
            task,
            false,
            force,
            WorkPhaseView::Running { key: None, attempt },
            WorkEvent::Executed(Ok(result)),
        ).1 == WorkActionView::Report(
            ReportView::Finished { result: Ok(result@), key: None, cache_error: None },
        ),
{
}

/// A failed attempt is followed by another while retries are left: after the
/// pause that the task asks for, or at once where it asks for none. The last
/// failure is reported.
pub proof fn law_a_failed_attempt_is_repeated_after_its_pause(
    task: PlannedTaskView,
    can_cache: bool,
    force: bool,
    key: Option<Seq<char>>,
    attempt: u32,
    error: RunnerError,
)
    requires
        attempt <= task.retries < u32::MAX,
    ensures
        ({
            let (next, action) = next_work(
                task,
                can_cache,
                force,
                WorkPhaseView::Running { key, attempt },
                WorkEvent::Executed(Err(error)),
            );
            let again = WorkActionView::Announce {
                attempt: (attempt + 2) as u32,
                max_attempts: (task.retries + 1) as u32,
            };
            if attempt == task.retries {
                action == WorkActionView::Report(
                    ReportView::Finished { result: Err(error@), key, cache_error: None },
                )
            } else if task.retry_backoff.nanos == 0 {
                action == again
            } else {
                action == WorkActionView::Sleep(task.retry_backoff) && next_work(
                    task,
                    can_cache,
                    force,
                    next,
                    WorkEvent::Slept,
                ).1 == again
            }
        }),
{
}

/// The counts of a summary are the numbers of tasks of each kind.
pub proof fn law_a_count_is_the_number_of_such_tasks(
    statuses: Seq<Option<TaskStatus>>,
    is: spec_fn(Option<TaskStatus>) -> bool,
)
    ensures
        exists|such: Seq<Option<TaskStatus>>| #[trigger]
            is_picked(such, statuses, is) && such.len() == count_where(statuses, is),
    decreases statuses.len(),
{
    if statuses.len() == 0 {
        lemma_picked_none(is);
        let none = Seq::<Option<TaskStatus>>::empty();
        assert(statuses =~= none);
        assert(is_picked(none, statuses, is));
    } else {
        let front = statuses.drop_last();
        law_a_count_is_the_number_of_such_tasks(front, is);
        let such = choose|such: Seq<Option<TaskStatus>>| #[trigger]
            is_picked(such, front, is) && such.len() == count_where(front, is);
        lemma_picked_more(such, statuses, is);
        if is(statuses.last()) {
            assert(is_picked(such.push(statuses.last()), statuses, is));
        } else {
            assert(is_picked(such, statuses, is));
        }
    }
}

/// A summary that counts nothing but completed tasks says that all completed;
/// one that counts a failed task means that some task failed, timed out or
/// printed too much.
pub proof fn law_a_summary_tells_what_happened(
    summary: ExecutionSummary,
    statuses: Seq<Option<TaskStatus>>,
)
    requires
        summarizes(summary, statuses),
    ensures
        summary.failed > 0 <==> exists|i: int|
            0 <= i < statuses.len() && (#[trigger] statuses[i] == Some(TaskStatus::Failed)
                || statuses[i] == Some(TaskStatus::TimedOut) || statuses[i] == Some(
                TaskStatus::OutputLimit,
            )),
        summary.cancelled > 0 <==> statuses.contains(Some(TaskStatus::Cancelled)),
        summary.completed > 0 <==> statuses.contains(Some(TaskStatus::Completed)),
        summary.cached > 0 <==> statuses.contains(Some(TaskStatus::Cached)),
        summary.blocked > 0 <==> statuses.contains(None) || statuses.contains(
            Some(TaskStatus::Blocked),
        ),
{
    let failed = |s: Option<TaskStatus>| crate::scheduler::summary::is_failed(s);
    let cancelled = |s: Option<TaskStatus>| s == Some(TaskStatus::Cancelled);
    let completed = |s: Option<TaskStatus>| s == Some(TaskStatus::Completed);
    let cached = |s: Option<TaskStatus>| s == Some(TaskStatus::Cached);
    let blocked = |s: Option<TaskStatus>| crate::scheduler::summary::is_blocked(s);
    lemma_counted(statuses, failed);
    lemma_counted(statuses, cancelled);
    lemma_counted(statuses, completed);
    lemma_counted(statuses, cached);
    lemma_counted(statuses, blocked);
    if exists|i: int|
        0 <= i < statuses.len() && (#[trigger] statuses[i] == Some(TaskStatus::Failed)
            || statuses[i] == Some(TaskStatus::TimedOut) || statuses[i] == Some(
            TaskStatus::OutputLimit,
        )) {
        let i = choose|i: int|
            0 <= i < statuses.len() && (#[trigger] statuses[i] == Some(TaskStatus::Failed)
                || statuses[i] == Some(TaskStatus::TimedOut) || statuses[i] == Some(
                TaskStatus::OutputLimit,
            ));
        assert(failed(statuses[i]));
    }
    if statuses.contains(Some(TaskStatus::Cancelled)) {
        let i = choose|i: int|
            0 <= i < statuses.len() && statuses[i] == Some(TaskStatus::Cancelled);
        assert(cancelled(statuses[i]));
    }
    if statuses.contains(Some(TaskStatus::Completed)) {
        let i = choose|i: int|
            0 <= i < statuses.len() && statuses[i] == Some(TaskStatus::Completed);
        assert(completed(statuses[i]));
    }
    if statuses.contains(Some(TaskStatus::Cached)) {
        let i = choose|i: int| 0 <= i < statuses.len() && statuses[i] == Some(TaskStatus::Cached);
        assert(cached(statuses[i]));
    }
    if statuses.contains(None) {
        let i = choose|i: int| 0 <= i < statuses.len() && statuses[i] == None::<TaskStatus>;
        assert(blocked(statuses[i]));
    }
    if statuses.contains(Some(TaskStatus::Blocked)) {
        let i = choose|i: int| 0 <= i < statuses.len() && statuses[i] == Some(TaskStatus::Blocked);
        assert(blocked(statuses[i]));
    }
}

proof fn lemma_counted(
    statuses: Seq<Option<TaskStatus>>,
    is: spec_fn(Option<TaskStatus>) -> bool,
)
    ensures
        count_where(statuses, is) > 0 <==> exists|i: int|
            0 <= i < statuses.len() && is(#[trigger] statuses[i]),
    decreases statuses.len(),
{
    if statuses.len() > 0 {
        let front = statuses.drop_last();
        lemma_counted(front, is);
        if count_where(front, is) > 0 {
            let i = choose|i: int| 0 <= i < front.len() && is(#[trigger] front[i]);
            assert(is(statuses[i]));
        }
        if is(statuses.last()) {
            assert(is(statuses[statuses.len() - 1]));
        }
        if exists|i: int| 0 <= i < statuses.len() && is(#[trigger] statuses[i]) {
            let i = choose|i: int| 0 <= i < statuses.len() && is(#[trigger] statuses[i]);
            if i < front.len() {
                assert(is(front[i]));
            }
        }
    }
}

/// The failure of a run is that of the first task, in the order of the plan,
/// that failed.
pub proof fn law_the_first_failed_task_is_reported(state: PlanState, count: nat)
    requires
        count <= state.results@.len(),
    ensures
        match first_fault(state, count) {
            Some(fault) => exists|k: int|
                0 <= k < count && (#[trigger] state.results@[k] matches Some(Err(error)) && error@
                    == fault) && forall|j: int|
                    0 <= j < k ==> !(#[trigger] state.results@[j] matches Some(Err(_))),
            None => forall|j: int|
                0 <= j < count ==> !(#[trigger] state.results@[j] matches Some(Err(_))),
        },
    decreases count,
{
    if count > 0 {
        law_the_first_failed_task_is_reported(state, (count - 1) as nat);
        if first_fault(state, (count - 1) as nat) is None {
            if let Some(fault) = first_fault(state, count) {
                assert(state.results@[count - 1] matches Some(Err(error)) && error@ == fault);
            }
        }
    }
}

/// A run succeeds exactly where no output and no cache failed, no task failed,
/// and no cancellation kept tasks from running; a failure to write output comes
/// before one of the cache, and that before a failed task.
pub proof fn law_a_run_ends_with_its_gravest_failure(
    scheduler: Scheduler,
    cancelled: bool,
    summary: ExecutionSummary,
)
    requires
        scheduler.wf(),
    ensures
        ({
            let outcome = scheduler.outcome(cancelled, summary);
            let kept = cancelled && summary.cancelled == 0 && summary.blocked > 0;
            let results = scheduler.state.results@;
            &&& scheduler.output_error matches Some(error) ==> outcome == Err::<
                ExecutionSummary,
                SchedulerFault,
            >(SchedulerFault::Output(error@))
            &&& scheduler.output_error is None ==> (scheduler.cache_error matches Some(error)
                ==> outcome == Err::<ExecutionSummary, SchedulerFault>(
                SchedulerFault::Cache(error@),
            ))
            &&& scheduler.output_error is None && scheduler.cache_error is None ==> {
                &&& outcome == Ok::<ExecutionSummary, SchedulerFault>(summary) <==> !kept && forall|
                    j: int,
                |
                    0 <= j < results.len() ==> !(#[trigger] results[j] matches Some(Err(_)))
                &&& outcome == Err::<ExecutionSummary, SchedulerFault>(SchedulerFault::Cancelled)
                    <==> kept && forall|j: int|
                    0 <= j < results.len() ==> !(#[trigger] results[j] matches Some(Err(_)))
            }
        }),
{
    law_the_first_failed_task_is_reported(scheduler.state, scheduler.state.tasks@.len());
}

/// A plan can be run exactly where every dependency that a task names is a task
/// of the plan.
pub proof fn law_every_dependency_has_to_be_planned(tasks: Seq<PlannedTask>, count: nat)
    requires
        count <= tasks.len(),
    ensures
        unresolved(tasks, count) is None <==> forall|c: int, j: int|
            0 <= c < count && 0 <= j < tasks[c].depends_on@.len() ==> plan_ids(tasks).contains(
                (#[trigger] tasks[c].depends_on@[j]).id@,
            ),
    decreases count,
{
    if count > 0 {
        law_every_dependency_has_to_be_planned(tasks, (count - 1) as nat);
        lemma_unresolved_of(tasks, count - 1, tasks[count - 1].depends_on@.len());
        if unresolved(tasks, count) is None {
            assert forall|c: int, j: int|
                0 <= c < count && 0 <= j < tasks[c].depends_on@.len() implies plan_ids(
                tasks,
            ).contains((#[trigger] tasks[c].depends_on@[j]).id@) by {
                if c == count - 1 {
                    assert(plan_ids(tasks).contains(tasks[count - 1].depends_on@[j].id@));
                }
            }
        }
    }
}

proof fn lemma_unresolved_of(tasks: Seq<PlannedTask>, c: int, count: nat)
    requires
        0 <= c < tasks.len(),
        count <= tasks[c].depends_on@.len(),
    ensures
        unresolved_of(tasks, c, count) is None <==> forall|j: int|
            0 <= j < count ==> plan_ids(tasks).contains((#[trigger] tasks[c].depends_on@[j]).id@),
    decreases count,
{
    if count > 0 {
        lemma_unresolved_of(tasks, c, (count - 1) as nat);
    }
}

/// A task may use the cache exactly where it asks for it, the run does not rule
/// it out, and every task that it depends on used the cache; the keys of those
/// go into its own, in order.
pub proof fn law_only_work_on_cached_work_is_cached(state: PlanState, c: int, mode: CacheMode)
    requires
        state.shaped(),
        0 <= c < state.tasks@.len(),
    ensures
        state.may_cache(c, mode) <==> state.tasks@[c].cache && mode != CacheMode::NoCache && forall|
            d: int,
        |
            0 <= d < state.tasks@.len() && (exists|j: int|
                0 <= j < state.tasks@[c].depends_on@.len() && (
                #[trigger] state.tasks@[c].depends_on@[j]).id@ == state.tasks@[d].id@)
                ==> #[trigger] state.cacheable@[d],
        state.keys_of(c).len() == state.tasks@[c].depends_on@.len(),
        forall|j: int|
            0 <= j < state.tasks@[c].depends_on@.len() && state.task_keys@[(
            #[trigger] state.dependencies@[c]@[j]) as int] is Some ==> state.task_keys@[state.dependencies@[c]@[j] as int]->0@
                == state.keys_of(c)[j] && state.tasks@[state.dependencies@[c]@[j] as int].id@
                == state.tasks@[c].depends_on@[j].id@,
{
    let places = state.dependencies@[c]@;
    assert(state.dependencies@[c]@.len() == state.tasks@[c].depends_on@.len());
    if state.may_cache(c, mode) {
        assert forall|d: int|
            0 <= d < state.tasks@.len() && (exists|j: int|
                0 <= j < state.tasks@[c].depends_on@.len() && (
                #[trigger] state.tasks@[c].depends_on@[j]).id@ == state.tasks@[d].id@) implies
            #[trigger] state.cacheable@[d] by {
            let j = choose|j: int|
                0 <= j < state.tasks@[c].depends_on@.len() && (
                #[trigger] state.tasks@[c].depends_on@[j]).id@ == state.tasks@[d].id@;
            let at = state.dependencies@[c]@[j] as int;
            assert(state.tasks@[at].id@ == state.tasks@[c].depends_on@[j].id@);
            assert(plan_ids(state.tasks@)[at] == plan_ids(state.tasks@)[d]);
            assert(at == d);
            assert(state.cacheable@[state.dependencies@[c]@[j] as int]);
        }
    }
    if state.tasks@[c].cache && mode != CacheMode::NoCache && forall|d: int|
        0 <= d < state.tasks@.len() && (exists|j: int|
            0 <= j < state.tasks@[c].depends_on@.len() && (
            #[trigger] state.tasks@[c].depends_on@[j]).id@ == state.tasks@[d].id@)
            ==> #[trigger] state.cacheable@[d] {
        assert forall|j: int| 0 <= j < places.len() implies state.cacheable@[
            #[trigger] state.dependencies@[c]@[j] as int
        ] by {
            let d = state.dependencies@[c]@[j] as int;
            assert(state.tasks@[d].id@ == state.tasks@[c].depends_on@[j].id@);
            assert(state.tasks@[c].depends_on@[j].id@ == state.tasks@[d].id@);
        }
    }
}

/// What became of a task is told by its result.
pub proof fn law_a_status_tells_the_result(state: PlanState, c: int)
    requires
        0 <= c < state.tasks@.len(),
    ensures
        state.results@[c] is None <==> state.statuses()[c] is None,
        state.results@[c] matches Some(Ok(result)) ==> state.statuses()[c] == Some(
            if result.cached {
                TaskStatus::Cached
            } else {
                TaskStatus::Completed
            },
        ),
        state.results@[c] matches Some(Err(error)) ==> (state.statuses()[c] == Some(
            TaskStatus::TimedOut,
        ) <==> error@ is TimedOut) && (state.statuses()[c] == Some(TaskStatus::OutputLimit)
            <==> error@ is OutputLimit) && (state.statuses()[c] == Some(TaskStatus::Cancelled)
            <==> error@ is Cancelled) && state.statuses()[c] != Some(TaskStatus::Completed)
            && state.statuses()[c] != Some(TaskStatus::Cached),
{
}

/// A task that is over lets go of its resource group, and of no other.
pub proof fn law_only_its_own_group_is_released(groups: Seq<Seq<char>>, group: Seq<char>)
    ensures
        is_picked(without(groups, group), groups, |g: Seq<char>| g != group),
    decreases groups.len(),
{
    let keep = |g: Seq<char>| g != group;
    if groups.len() == 0 {
        lemma_picked_none(keep);
        assert(groups =~= Seq::empty());
    } else {
        law_only_its_own_group_is_released(groups.drop_last(), group);
        lemma_picked_more(without(groups.drop_last(), group), groups, keep);
    }
}

/// Whether `such` holds those of `flags` that are set.
pub open spec fn are_set(such: Seq<bool>, flags: Seq<bool>) -> bool {
    is_picked(such, flags, |flag: bool| flag)
}

/// The number of tasks that run is the number of flags that are set.
pub proof fn law_running_tasks_are_counted_once(flags: Seq<bool>)
    ensures
        exists|such: Seq<bool>| #[trigger]
            are_set(such, flags) && such.len() == count_set(flags),
    decreases flags.len(),
{
    let keep = |flag: bool| flag;
    if flags.len() == 0 {
        lemma_picked_none(keep);
        assert(flags =~= Seq::empty());
        assert(are_set(Seq::<bool>::empty(), flags));
    } else {
        let front = flags.drop_last();
        law_running_tasks_are_counted_once(front);
        let such = choose|such: Seq<bool>| #[trigger]
            are_set(such, front) && such.len() == count_set(front);
        lemma_picked_more(such, flags, keep);
        if flags.last() {
            assert(are_set(such.push(flags.last()), flags));
        } else {
            assert(are_set(such, flags));
        }
    }
}

} // verus!
