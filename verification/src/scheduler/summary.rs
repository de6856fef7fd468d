//! What became of a plan.

use vstd::prelude::*;

use crate::events::TaskStatus;
use crate::project::error::TaskNode;

verus! {

/// How many tasks of a plan ended in which way.
#[derive(Debug, Clone, Copy, PartialEq, Eq, Structural)]
pub struct ExecutionSummary {
    pub completed: usize,
    pub cached: usize,
    pub failed: usize,
    pub cancelled: usize,
    pub blocked: usize,
}

/// How many of `statuses` satisfy `is`.
pub open spec fn count_where(
    statuses: Seq<Option<TaskStatus>>,
    is: spec_fn(Option<TaskStatus>) -> bool,
) -> nat
    decreases statuses.len(),
{
    if statuses.len() == 0 {
        0
    } else {
        count_where(statuses.drop_last(), is) + if is(statuses.last()) {
            1nat
        } else {
            0nat
        }
    }
}

/// A task that never ran is blocked.
pub open spec fn is_blocked(status: Option<TaskStatus>) -> bool {
    status is None || status == Some(TaskStatus::Blocked)
}

pub open spec fn is_failed(status: Option<TaskStatus>) -> bool {
    status == Some(TaskStatus::Failed) || status == Some(TaskStatus::TimedOut) || status == Some(
        TaskStatus::OutputLimit,
    )
}

/// A cancelled task counts apart from the failed ones, and still is an error.
pub open spec fn is_error(status: Option<TaskStatus>) -> bool {
    is_failed(status) || status == Some(TaskStatus::Cancelled)
}

/// Whether `summary` counts every status of a plan.
pub open spec fn summarizes(summary: ExecutionSummary, statuses: Seq<Option<TaskStatus>>) -> bool {
    &&& summary.completed == count_where(
        statuses,
        |s: Option<TaskStatus>| s == Some(TaskStatus::Completed),
    )
    &&& summary.cached == count_where(
        statuses,
        |s: Option<TaskStatus>| s == Some(TaskStatus::Cached),
    )
    &&& summary.failed == count_where(statuses, |s: Option<TaskStatus>| is_failed(s))
    &&& summary.cancelled == count_where(
        statuses,
        |s: Option<TaskStatus>| s == Some(TaskStatus::Cancelled),
    )
    &&& summary.blocked == count_where(statuses, |s: Option<TaskStatus>| is_blocked(s))
}

/// Every task of a plan is counted exactly once.
pub proof fn law_summary_accounts_for_every_task(
    summary: ExecutionSummary,
    statuses: Seq<Option<TaskStatus>>,
)
    requires
        summarizes(summary, statuses),
    ensures
        summary.completed + summary.cached + summary.failed + summary.cancelled + summary.blocked
            == statuses.len(),
{
    lemma_counts_add_up(statuses);
}

proof fn lemma_counts_add_up(statuses: Seq<Option<TaskStatus>>)
    ensures
        count_where(statuses, |s: Option<TaskStatus>| s == Some(TaskStatus::Completed))
            + count_where(statuses, |s: Option<TaskStatus>| s == Some(TaskStatus::Cached))
            + count_where(statuses, |s: Option<TaskStatus>| is_failed(s)) + count_where(
            statuses,
            |s: Option<TaskStatus>| s == Some(TaskStatus::Cancelled),
        ) + count_where(statuses, |s: Option<TaskStatus>| is_blocked(s)) == statuses.len(),
    decreases statuses.len(),
{
    if statuses.len() > 0 {
        lemma_counts_add_up(statuses.drop_last());
        let last = statuses.last();
        match last {
            None => {},
            Some(TaskStatus::Completed) => {},
            Some(TaskStatus::Cached) => {},
            Some(TaskStatus::Failed) => {},
            Some(TaskStatus::TimedOut) => {},
            Some(TaskStatus::OutputLimit) => {},
            Some(TaskStatus::Cancelled) => {},
            Some(TaskStatus::Blocked) => {},
        }
    }
}

/// Classify a completed plan in plan order: the counts, and the first task that
/// reported an error.
#[verifier::loop_isolation(false)]
pub fn classify(nodes: &Vec<TaskNode>, statuses: &Vec<Option<TaskStatus>>) -> (r: (
    ExecutionSummary,
    Option<TaskNode>,
))
    requires
        nodes@.len() == statuses@.len(),
    ensures
        summarizes(r.0, statuses@),
        r.0.completed + r.0.cached + r.0.failed + r.0.cancelled + r.0.blocked == nodes@.len(),
        match r.1 {
            Some(node) => exists|i: int|
                0 <= i < nodes@.len() && #[trigger] nodes@[i] == node && is_error(statuses@[i])
                    && forall|j: int| 0 <= j < i ==> !is_error(#[trigger] statuses@[j]),
            None => forall|j: int| 0 <= j < nodes@.len() ==> !is_error(#[trigger] statuses@[j]),
        },
{
    let mut summary = ExecutionSummary {
        completed: 0,
        cached: 0,
        failed: 0,
        cancelled: 0,
        blocked: 0,
    };
    let mut first: Option<usize> = None;
    let mut i: usize = 0;
    assert(statuses@.take(0) =~= seq![]);
    while i < statuses.len()
        invariant
            i <= statuses@.len(),
            summarizes(summary, statuses@.take(i as int)),
            summary.completed + summary.cached + summary.failed + summary.cancelled
                + summary.blocked == i,
            match first {
                Some(k) => k < i && is_error(statuses@[k as int]) && forall|j: int|
                    0 <= j < k ==> !is_error(#[trigger] statuses@[j]),
                None => forall|j: int| 0 <= j < i ==> !is_error(#[trigger] statuses@[j]),
            },
        decreases statuses.len() - i,
    {
        assert(statuses@.take(i as int + 1).drop_last() =~= statuses@.take(i as int));
        assert(statuses@.take(i as int + 1).last() == statuses@[i as int]);
        match statuses[i] {
            None => {
                summary.blocked = summary.blocked + 1;
            },
            Some(TaskStatus::Blocked) => {
                summary.blocked = summary.blocked + 1;
            },
            Some(TaskStatus::Cached) => {
                summary.cached = summary.cached + 1;
            },
            Some(TaskStatus::Completed) => {
                summary.completed = summary.completed + 1;
            },
            Some(TaskStatus::Cancelled) => {
                summary.cancelled = summary.cancelled + 1;
                if first.is_none() {
                    first = Some(i);
                }
            },
            Some(TaskStatus::Failed) | Some(TaskStatus::TimedOut) | Some(
                TaskStatus::OutputLimit,
            ) => {
                summary.failed = summary.failed + 1;
                if first.is_none() {
                    first = Some(i);
                }
            },
        }
        i += 1;
    }
    assert(statuses@.take(i as int) =~= statuses@);
    match first {
        Some(k) => {
            let node = nodes[k].copy();
            assert(nodes@[k as int] == node);
            (summary, Some(node))
        },
        None => (summary, None),
    }
}

} // verus!
