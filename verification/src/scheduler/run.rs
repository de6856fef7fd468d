//! The scheduling loop: which task to announce and dispatch, and what a run
//! comes to.

use vstd::prelude::*;

use crate::cache::error::CacheError;
use crate::cache::CacheMode;
use crate::events::TaskStatus;
use crate::io::IoError;
use crate::project::error::TaskNode;
use crate::project::planned::PlannedTask;
use crate::runner::error::RunnerFault;
use crate::scheduler::error::{SchedulerError, SchedulerFault};
use crate::scheduler::state::{count_set, plan_ids, unresolved, PlanState};
use crate::scheduler::summary::{
    count_where, is_blocked, is_error, summarizes, ExecutionSummary,
};
use crate::scheduler::transition::{completed, dispatched, settled_in};
use crate::scheduler::transition::{
    finalizers_stand_apart, is_dependency_first, law_a_run_leaves_no_task_behind,
};
use crate::scheduler::worker::WorkerReport;
use crate::text::{optional_text, texts};

verus! {

/// What happened.
#[derive(Debug)]
pub enum LoopEvent {
    Begin,
    /// The start of the pending task was announced.
    Presented(Result<(), IoError>),
    /// The job was handed to a worker.
    Dispatched,
    /// A worker reported back.
    Reported { node: TaskNode, report: WorkerReport },
}

/// What to do next.
#[derive(Debug)]
pub enum LoopAction {
    /// Announce that a task starts.
    Present(TaskNode),
    /// Hand a job to a worker.
    Dispatch(WorkerJob),
    /// Wait for the next report.
    Await,
    /// Nothing is left to do.
    Finish,
}

/// A task for a worker.
#[derive(Debug, Clone, PartialEq, Eq)]
pub struct WorkerJob {
    pub node: TaskNode,
    pub can_cache: bool,
    pub force: bool,
    pub dependency_keys: Vec<String>,
}

/// The scheduling loop of one run.
#[derive(Debug)]
pub struct Scheduler {
    pub state: PlanState,
    pub jobs: usize,
    pub cache_mode: CacheMode,
    /// The task that is being announced.
    pub pending: Option<usize>,
    pub output_error: Option<IoError>,
    pub cache_error: Option<CacheError>,
    /// Whether the loop has seen a cancellation.
    pub cancelled: bool,
}

/// Whether nothing but the stopping flag has changed.
pub open spec fn only_stopping(pre: PlanState, post: PlanState) -> bool {
    &&& post.same_plan(pre)
    &&& post.remaining == pre.remaining
    &&& post.ready == pre.ready
    &&& post.active == pre.active
    &&& post.settled == pre.settled
    &&& post.succeeded == pre.succeeded
    &&& post.cacheable == pre.cacheable
    &&& post.task_keys == pre.task_keys
    &&& post.results == pre.results
    &&& post.active_groups == pre.active_groups
}

/// What the loop does when it looks for work. `state` is its state after the
/// look, in which a cancellation has been noted if a worker was free.
pub open spec fn looks_for_work(
    state: PlanState,
    jobs: usize,
    action: LoopAction,
    pending: Option<usize>,
) -> bool {
    if count_set(state.active@) >= jobs {
        action is Await && pending is None
    } else {
        match action {
            LoopAction::Present(node) => pending matches Some(c) && state.is_next(c as int)
                && state.tasks@[c as int].id@ == node.id@,
            LoopAction::Await => pending is None && state.any_active() && forall|c: int|
                !#[trigger] state.eligible(c),
            LoopAction::Finish => pending is None && !state.any_active() && forall|c: int|
                !#[trigger] state.eligible(c),
            LoopAction::Dispatch(_) => false,
        }
    }
}

impl Scheduler {
    /// Whether something has gone wrong: an output or cache failure, or a task
    /// that failed.
    pub open spec fn failed(self) -> bool {
        ||| self.output_error is Some
        ||| self.cache_error is Some
        ||| exists|c: int|
            0 <= c < self.state.tasks@.len() && #[trigger] self.state.results@[c] is Some
                && self.state.results@[c]->0 is Err
    }

    /// The invariant of the loop: never more tasks run than there are workers,
    /// every task whose result was cached has its key, and only a failure or a
    /// cancellation stops the run.
    pub open spec fn wf(self) -> bool {
        &&& self.state.wf()
        &&& self.jobs > 0
        &&& count_set(self.state.active@) <= self.jobs
        &&& self.pending matches Some(c) ==> self.state.eligible(c as int) && count_set(
            self.state.active@,
        ) < self.jobs
        &&& forall|c: int|
            0 <= c < self.state.tasks@.len() && (#[trigger] self.state.tasks@[c]).finalizer
                ==> !self.state.tasks@[c].cache
        &&& forall|c: int|
            0 <= c < self.state.tasks@.len() && #[trigger] self.state.cacheable@[c]
                && self.state.succeeded@[c] ==> self.state.task_keys@[c] is Some
        &&& self.state.stopping ==> self.cancelled || self.failed()
    }

    /// The loop before anything has run.
    pub fn new(plan: Vec<PlannedTask>, jobs: usize, cache_mode: CacheMode) -> (r: Result<
        Scheduler,
        SchedulerError,
    >)
        requires
            jobs > 0,
            plan_ids(plan@).no_duplicates(),
            forall|c: int|
                0 <= c < plan@.len() && (#[trigger] plan@[c]).finalizer ==> !plan@[c].cache,
        ensures
            match r {
                Ok(scheduler) => {
                    &&& unresolved(plan@, plan@.len()) is None
                    &&& scheduler.wf()
                    &&& scheduler.state.tasks == plan
                    &&& !scheduler.state.stopping
                    &&& scheduler.jobs == jobs
                    &&& scheduler.cache_mode == cache_mode
                    &&& scheduler.pending is None
                    &&& scheduler.output_error is None
                    &&& scheduler.cache_error is None
                    &&& !scheduler.cancelled
                    &&& forall|c: int|
                        0 <= c < plan@.len() ==> {
                            &&& #[trigger] scheduler.state.ready@[c] == (
                            plan@[c].depends_on@.len() == 0)
                            &&& !scheduler.state.active@[c]
                            &&& scheduler.state.results@[c] is None
                        }
                },
                Err(e) => unresolved(plan@, plan@.len()) == Some(e@),
            },
    {
        match PlanState::new(plan) {
            Err(e) => Err(e),
            Ok(state) => {
                proof {
                    assert forall|i: int| 0 <= i < state.active@.len() implies !#[trigger] state.active@[i] by {
                        assert(state.ready@[i] == (plan@[i].depends_on@.len() == 0));
                    }
                    lemma_none_set(state.active@);
                    assert forall|c: int| 0 <= c < state.tasks@.len() implies !#[trigger] state.cacheable@[c] by {
                        assert(state.ready@[c] == (plan@[c].depends_on@.len() == 0));
                    }
                }
                Ok(
                    Scheduler {
                        state,
                        jobs,
                        cache_mode,
                        pending: None,
                        output_error: None,
                        cache_error: None,
                        cancelled: false,
                    },
                )
            },
        }
    }

    /// Whether a cache session has to be prepared for the run.
    #[verifier::loop_isolation(false)]
    pub fn needs_cache_session(&self) -> (r: bool)
        ensures
            r == (self.cache_mode != CacheMode::NoCache && exists|c: int|
                0 <= c < self.state.tasks@.len() && (#[trigger] self.state.tasks@[c]).cache),
    {
        if self.cache_mode == CacheMode::NoCache {
            return false;
        }
        let mut c: usize = 0;
        while c < self.state.tasks.len()
            invariant
                c <= self.state.tasks@.len(),
                forall|k: int| 0 <= k < c ==> !(#[trigger] self.state.tasks@[k]).cache,
            decreases self.state.tasks.len() - c,
        {
            if self.state.tasks[c].cache {
                assert(self.state.tasks@[c as int].cache);
                return true;
            }
            c += 1;
        }
        false
    }

    /// Look for the next task to announce.
    fn look(&mut self, cancelled: bool) -> (r: LoopAction)
        requires
            old(self).wf(),
            old(self).pending is None,
            cancelled ==> old(self).cancelled,
        ensures
            final(self).wf(),
            final(self).cancelled == old(self).cancelled,
            only_stopping(old(self).state, final(self).state),
            final(self).state.stopping == (old(self).state.stopping || (cancelled && count_set(
                old(self).state.active@,
            ) < old(self).jobs)),
            final(self).jobs == old(self).jobs,
            final(self).cache_mode == old(self).cache_mode,
            final(self).output_error == old(self).output_error,
            final(self).cache_error == old(self).cache_error,
            looks_for_work(final(self).state, final(self).jobs, r, final(self).pending),
    {
        let running: usize = self.state.active_count();
        if running >= self.jobs {
            return LoopAction::Await;
        }
        if cancelled {
            let ghost pre = self.state;
            self.state.stopping = true;
            proof {
                lemma_stopping_wf(pre, self.state);
            }
        }
        match self.state.next_place() {
            Some(c) => {
                self.pending = Some(c);
                LoopAction::Present(self.state.tasks[c].node())
            },
            None => {
                proof {
                    lemma_count_positive(self.state.active@);
                }
                if running > 0 {
                    LoopAction::Await
                } else {
                    LoopAction::Finish
                }
            },
        }
    }

    /// The start of the pending task could be announced: it becomes a job.
    fn dispatch(&mut self) -> (r: WorkerJob)
        requires
            old(self).wf(),
            old(self).pending is Some,
        ensures
            final(self).wf(),
            final(self).pending is None,
            final(self).jobs == old(self).jobs,
            final(self).cache_mode == old(self).cache_mode,
            final(self).cancelled == old(self).cancelled,
            final(self).output_error == old(self).output_error,
            final(self).cache_error == old(self).cache_error,
            ({
                let c = old(self).pending->0 as int;
                let can_cache = old(self).state.may_cache(c, old(self).cache_mode);
                &&& dispatched(old(self).state, final(self).state, c, can_cache)
                &&& r.node.id@ == old(self).state.tasks@[c].id@
                &&& r.can_cache == can_cache
                &&& r.force == (old(self).cache_mode == CacheMode::Force)
                &&& texts(r.dependency_keys@) == if can_cache {
                    old(self).state.keys_of(c)
                } else {
                    Seq::empty()
                }
            }),
    {
        let ghost pre = self.state;
        let c: usize = match self.pending {
            Some(c) => c,
            None => 0,
        };
        self.pending = None;
        let node = self.state.tasks[c].node();
        proof {
            assert(plan_ids(pre.tasks@)[c as int] == node.id@);
            assert forall|o: int|
                0 <= o < pre.tasks@.len() && (#[trigger] pre.tasks@[o]).id@ == node.id@ implies o
                == c by {
                assert(plan_ids(pre.tasks@)[o] == plan_ids(pre.tasks@)[c as int]);
            }
        }
        let can_cache: bool = self.state.can_cache(&node, self.cache_mode);
        assert(can_cache == pre.may_cache(c as int, self.cache_mode));
        let mut dependency_keys: Vec<String> = Vec::new();
        assert(texts(dependency_keys@) =~= Seq::empty());
        if can_cache {
            proof {
                crate::scheduler::transition::law_dependencies_come_first(pre, c as int);
                assert(pre.has_keys(c as int)) by {
                    assert forall|j: int| 0 <= j < pre.dependencies@[c as int]@.len() implies
                        pre.task_keys@[#[trigger] pre.dependencies@[c as int]@[j] as int] is Some by {
                        let d = pre.dependencies@[c as int]@[j] as int;
                        assert(pre.cacheable@[d]);
                        assert(pre.succeeded@[d]);
                    }
                }
            }
            dependency_keys = self.state.dependency_keys(&node);
        }
        self.state.mark_dispatched(&node, can_cache);
        proof {
            assert(dispatched(pre, self.state, c as int, can_cache));
            assert(pre.task_fits(c as int));
            lemma_count_update(pre.active@, c as int);
            assert forall|o: int|
                0 <= o < self.state.tasks@.len() && #[trigger] self.state.cacheable@[o]
                    && self.state.succeeded@[o] implies self.state.task_keys@[o] is Some by {
                if o == c {
                    assert(pre.task_fits(o));
                } else {
                    assert(pre.cacheable@[o]);
                }
            }
        }
        WorkerJob {
            node,
            can_cache,
            force: self.cache_mode == CacheMode::Force,
            dependency_keys,
        }
    }

    /// Whether `event` can happen now.
    pub open spec fn expects(self, event: LoopEvent) -> bool {
        match event {
            LoopEvent::Begin => self.pending is None,
            LoopEvent::Presented(_) => self.pending is Some,
            LoopEvent::Dispatched => self.pending is None,
            LoopEvent::Reported { node, report } => {
                &&& self.pending is None
                &&& exists|c: int|
                    0 <= c < self.state.tasks@.len() && #[trigger] self.state.active@[c]
                        && self.state.tasks@[c].id@ == node.id@ && (self.state.cacheable@[c]
                        && report is Finished ==> report->key is Some)
            },
        }
    }

    /// The state of the graph once a report has been taken in.
    pub open spec fn took_report(
        pre: PlanState,
        post: PlanState,
        node: TaskNode,
        report: WorkerReport,
    ) -> bool {
        forall|c: int|
            0 <= c < pre.tasks@.len() && (#[trigger] pre.tasks@[c]).id@ == node.id@ ==> match report {
                WorkerReport::Finished { result, key, cache_error } => completed(
                    pre,
                    post,
                    c,
                    result,
                    optional_text(key),
                    cache_error is Some,
                ),
                WorkerReport::CacheFailed(_) => settled_in(pre, post, c, false) && post.stopping
                    && post.results == pre.results && post.task_keys == pre.task_keys,
                WorkerReport::OutputFailed(_) => post.same_plan(pre) && post.stopping
                    && post.active@ == pre.active@.update(c, false) && post.ready == pre.ready
                    && post.remaining == pre.remaining && post.settled == pre.settled
                    && post.succeeded == pre.succeeded && post.results == pre.results
                    && post.task_keys == pre.task_keys && post.cacheable == pre.cacheable
                    && post.active_groups == pre.active_groups,
            }
    }

    /// Take in the report of a worker.
    pub fn take_report(&mut self, node: TaskNode, report: WorkerReport)
        requires
            old(self).wf(),
            old(self).expects(LoopEvent::Reported { node, report }),
        ensures
            final(self).wf(),
            final(self).pending is None,
            final(self).jobs == old(self).jobs,
            final(self).cache_mode == old(self).cache_mode,
            final(self).cancelled == old(self).cancelled,
            Self::took_report(old(self).state, final(self).state, node, report),
            final(self).output_error == (match report {
                WorkerReport::OutputFailed(error) => Some(error),
                _ => old(self).output_error,
            }),
            final(self).cache_error == (match report {
                WorkerReport::CacheFailed(error) => Some(error),
                WorkerReport::Finished { cache_error: Some(error), .. } => Some(error),
                _ => old(self).cache_error,
            }),
    {
        let ghost pre = self.state;
        let ghost w = choose|w: int|
            0 <= w < pre.tasks@.len() && #[trigger] pre.active@[w] && pre.tasks@[w].id@ == node.id@
                && (pre.cacheable@[w] && report is Finished ==> report->key is Some);
        let ghost given = report;
        proof {
            assert forall|o: int|
                0 <= o < pre.tasks@.len() && (#[trigger] pre.tasks@[o]).id@ == node.id@ implies o
                == w by {
                assert(plan_ids(pre.tasks@)[o] == plan_ids(pre.tasks@)[w]);
            }
        }
        match report {
            WorkerReport::Finished { result, key, cache_error } => {
                let ghost spec_key = optional_text(key);
                let ghost failed = cache_error is Some;
                let ghost outcome = result;
                if let Some(error) = self.state.complete(node, result, key, cache_error) {
                    self.cache_error = Some(error);
                }
                assert(completed(pre, self.state, w, outcome, spec_key, failed));
                assert(self.state.active@ == pre.active@.update(w, false));
            },
            WorkerReport::CacheFailed(error) => {
                self.state.cache_failed(&node);
                self.cache_error = Some(error);
                assert(settled_in(pre, self.state, w, false));
            },
            WorkerReport::OutputFailed(error) => {
                self.state.output_failed(&node);
                self.output_error = Some(error);
                assert(self.state.active@ == pre.active@.update(w, false));
            },
        }
        proof {
            lemma_count_clear(pre.active@, w);
            assert(pre.task_fits(w));
            assert forall|o: int|
                0 <= o < self.state.tasks@.len() && #[trigger] self.state.cacheable@[o]
                    && self.state.succeeded@[o] implies self.state.task_keys@[o] is Some by {
                assert(pre.cacheable@[o]);
                if o != w && given is Finished {
                    assert(optional_text(self.state.task_keys@[o]) == optional_text(
                        pre.task_keys@[o],
                    ));
                }
                if o == w && given is Finished {
                    assert(optional_text(self.state.task_keys@[w]) is Some);
                }
            }
            if self.state.stopping {
                if pre.stopping && old(self).failed() && old(self).output_error is None && old(
                    self,
                ).cache_error is None {
                    let o = choose|o: int|
                        0 <= o < pre.tasks@.len() && #[trigger] pre.results@[o] is Some
                            && pre.results@[o]->0 is Err;
                    assert(o != w);
                    assert(self.state.results@[o] == pre.results@[o]);
                } else if !pre.stopping && given is Finished {
                    assert(self.state.results@[w] == Some(given->result));
                }
            }
        }
    }

    /// Take note of what happened, and say what to do next.
    pub fn step(&mut self, event: LoopEvent, cancelled: bool) -> (r: LoopAction)
        requires
            old(self).wf(),
            old(self).expects(event),
        ensures
            final(self).wf(),
            final(self).jobs == old(self).jobs,
            final(self).cache_mode == old(self).cache_mode,
            final(self).cancelled == (old(self).cancelled || (cancelled && !(event is Presented))),
            match event {
                LoopEvent::Presented(Ok(_)) => {
                    let c = old(self).pending->0 as int;
                    let can_cache = old(self).state.may_cache(c, old(self).cache_mode);
                    &&& r matches LoopAction::Dispatch(job)
                    &&& dispatched(old(self).state, final(self).state, c, can_cache)
                    &&& job.node.id@ == old(self).state.tasks@[c].id@
                    &&& job.can_cache == can_cache
                    &&& job.force == (old(self).cache_mode == CacheMode::Force)
                    &&& texts(job.dependency_keys@) == if can_cache {
                        old(self).state.keys_of(c)
                    } else {
                        Seq::empty()
                    }
                    &&& final(self).pending is None
                    &&& final(self).output_error == old(self).output_error
                    &&& final(self).cache_error == old(self).cache_error
                },
                LoopEvent::Presented(Err(error)) => {
                    &&& only_stopping(old(self).state, final(self).state)
                    &&& final(self).state.stopping
                    &&& final(self).output_error == Some(error)
                    &&& final(self).cache_error == old(self).cache_error
                    &&& final(self).pending is None
                    &&& r == if old(self).state.any_active() {
                        LoopAction::Await
                    } else {
                        LoopAction::Finish
                    }
                },
                LoopEvent::Reported { node, report } => {
                    &&& exists|middle: PlanState|
                        #[trigger] Self::took_report(old(self).state, middle, node, report)
                            && Self::goes_on(
                            middle,
                            final(self).state,
                            final(self).jobs,
                            cancelled,
                            r,
                            final(self).pending,
                        )
                    &&& final(self).output_error == (match report {
                        WorkerReport::OutputFailed(error) => Some(error),
                        _ => old(self).output_error,
                    })
                    &&& final(self).cache_error == (match report {
                        WorkerReport::CacheFailed(error) => Some(error),
                        WorkerReport::Finished { cache_error: Some(error), .. } => Some(error),
                        _ => old(self).cache_error,
                    })
                },
                _ => Self::goes_on(
                    old(self).state,
                    final(self).state,
                    final(self).jobs,
                    cancelled,
                    r,
                    final(self).pending,
                ) && final(self).output_error == old(self).output_error && final(self).cache_error
                    == old(self).cache_error,
            },
    {
        match event {
            LoopEvent::Presented(outcome) => match outcome {
                Ok(_) => LoopAction::Dispatch(self.dispatch()),
                Err(error) => {
                    let ghost pre = self.state;
                    self.pending = None;
                    self.output_error = Some(error);
                    self.state.stopping = true;
                    proof {
                        lemma_stopping_wf(pre, self.state);
                        lemma_count_positive(self.state.active@);
                    }
                    if self.state.active_count() > 0 {
                        LoopAction::Await
                    } else {
                        LoopAction::Finish
                    }
                },
            },
            LoopEvent::Reported { node, report } => {
                self.take_report(node, report);
                self.go_on(cancelled)
            },
            _ => self.go_on(cancelled),
        }
    }

    /// What the loop does next in state `pre`.
    pub open spec fn goes_on(
        pre: PlanState,
        post: PlanState,
        jobs: usize,
        cancelled: bool,
        action: LoopAction,
        pending: Option<usize>,
    ) -> bool {
        if !pre.any_active() && !pre.any_ready() {
            post == pre && action is Finish && pending is None
        } else {
            &&& only_stopping(pre, post)
            &&& post.stopping == (pre.stopping || (cancelled && count_set(pre.active@) < jobs))
            &&& looks_for_work(post, jobs, action, pending)
        }
    }

    fn go_on(&mut self, cancelled: bool) -> (r: LoopAction)
        requires
            old(self).wf(),
            old(self).pending is None,
        ensures
            final(self).wf(),
            final(self).jobs == old(self).jobs,
            final(self).cache_mode == old(self).cache_mode,
            final(self).cancelled == (old(self).cancelled || cancelled),
            final(self).output_error == old(self).output_error,
            final(self).cache_error == old(self).cache_error,
            Self::goes_on(
                old(self).state,
                final(self).state,
                final(self).jobs,
                cancelled,
                r,
                final(self).pending,
            ),
    {
        if cancelled {
            self.cancelled = true;
        }
        if !self.state.has_active_or_ready() {
            return LoopAction::Finish;
        }
        self.look(cancelled)
    }

    /// Whether the run has stopped although tasks are left and nothing failed.
    pub open spec fn is_stuck(self) -> bool {
        &&& !self.state.any_active()
        &&& !self.state.any_ready()
        &&& !self.state.stopping
        &&& exists|c: int|
            0 <= c < self.state.tasks@.len() && #[trigger] self.state.results@[c] is None
    }

    /// Whether the run has stopped although tasks are left and nothing failed.
    #[verifier::loop_isolation(false)]
    pub fn stuck(&self) -> (r: bool)
        requires
            self.wf(),
        ensures
            r == self.is_stuck(),
    {
        if self.state.stopping || self.state.has_active_or_ready() {
            return false;
        }
        let mut c: usize = 0;
        while c < self.state.tasks.len()
            invariant
                c <= self.state.tasks@.len(),
                self.wf(),
                forall|k: int| 0 <= k < c ==> #[trigger] self.state.results@[k] is Some,
            decreases self.state.tasks.len() - c,
        {
            if self.state.results[c].is_none() {
                assert(self.state.results@[c as int] is None);
                return true;
            }
            c += 1;
        }
        false
    }

    /// What the run comes to: an output failure, then a cache failure, then the
    /// first failed task in plan order, then a cancellation that kept tasks
    /// from running; otherwise success.
    pub open spec fn outcome(self, cancelled: bool, summary: ExecutionSummary) -> Result<
        ExecutionSummary,
        SchedulerFault,
    > {
        if let Some(error) = self.output_error {
            Err(SchedulerFault::Output(error@))
        } else if let Some(error) = self.cache_error {
            Err(SchedulerFault::Cache(error@))
        } else if let Some(fault) = first_fault(self.state, self.state.tasks@.len()) {
            Err(SchedulerFault::Task(fault))
        } else if cancelled && summary.cancelled == 0 && summary.blocked > 0 {
            Err(SchedulerFault::Cancelled)
        } else {
            Ok(summary)
        }
    }

    /// What the run comes to, with its summary.
    pub fn verdict(self, cancelled: bool) -> (r: (
        ExecutionSummary,
        Result<ExecutionSummary, SchedulerError>,
    ))
        requires
            self.wf(),
        ensures
            summarizes(r.0, self.state.statuses()),
            match r.1 {
                Ok(summary) => self.outcome(cancelled, r.0) == Ok::<
                    ExecutionSummary,
                    SchedulerFault,
                >(summary),
                Err(e) => self.outcome(cancelled, r.0) == Err::<ExecutionSummary, SchedulerFault>(
                    e@,
                ),
            },
    {
        let (summary, first) = self.state.finish();
        proof {
            if first is Some {
                let i = choose|i: int|
                    0 <= i < self.state.tasks@.len() && (#[trigger] self.state.tasks@[i]).id@
                        == first->0.id@ && is_error(self.state.statuses()[i]) && forall|j: int|
                        0 <= j < i ==> !is_error(#[trigger] self.state.statuses()[j]);
                assert(plan_ids(self.state.tasks@)[i] == first->0.id@);
                lemma_first_fault(self.state, i);
            } else {
                lemma_no_fault(self.state, self.state.tasks@.len());
            }
        }
        if let Some(error) = self.output_error {
            return (summary, Err(SchedulerError::Output(error)));
        }
        if let Some(error) = self.cache_error {
            return (summary, Err(SchedulerError::Cache(error)));
        }
        if let Some(node) = first {
            let ghost i = choose|i: int|
                0 <= i < self.state.tasks@.len() && (#[trigger] self.state.tasks@[i]).id@
                    == node.id@ && is_error(self.state.statuses()[i]) && forall|j: int|
                    0 <= j < i ==> !is_error(#[trigger] self.state.statuses()[j]);
            let c: usize = self.state.place(&node);
            assert(c == i);
            let mut results = self.state.results;
            match results.remove(c) {
                Some(Err(error)) => {
                    return (summary, Err(SchedulerError::Task(Box::new(error))));
                },
                _ => {
                    assert(false);
                },
            }
        }
        if cancelled && summary.cancelled == 0 && summary.blocked > 0 {
            return (summary, Err(SchedulerError::Cancelled));
        }
        (summary, Ok(summary))
    }
}

/// The failure of the first of `count` tasks that failed.
pub open spec fn first_fault(state: PlanState, count: nat) -> Option<RunnerFault>
    decreases count,
{
    if count == 0 {
        None
    } else {
        match first_fault(state, (count - 1) as nat) {
            Some(fault) => Some(fault),
            None => match state.results@[count - 1] {
                Some(Err(error)) => Some(error@),
                _ => None,
            },
        }
    }
}

proof fn lemma_no_fault(state: PlanState, count: nat)
    requires
        count <= state.tasks@.len(),
        forall|j: int| 0 <= j < count ==> !is_error(#[trigger] state.statuses()[j]),
    ensures
        first_fault(state, count) is None,
    decreases count,
{
    if count > 0 {
        lemma_no_fault(state, (count - 1) as nat);
        assert(!is_error(state.statuses()[count - 1]));
        assert(state.statuses()[count - 1] == state.status_of(count - 1));
    }
}

proof fn lemma_first_fault(state: PlanState, i: int)
    requires
        0 <= i < state.tasks@.len(),
        is_error(state.statuses()[i]),
        forall|j: int| 0 <= j < i ==> !is_error(#[trigger] state.statuses()[j]),
    ensures
        state.results@[i] matches Some(Err(error)) && first_fault(state, state.tasks@.len())
            == Some(error@),
{
    lemma_no_fault(state, i as nat);
    assert(state.statuses()[i] == state.status_of(i));
    lemma_fault_stays(state, (i + 1) as nat, state.tasks@.len());
}

proof fn lemma_fault_stays(state: PlanState, k: nat, count: nat)
    requires
        k <= count,
        first_fault(state, k) is Some,
    ensures
        first_fault(state, count) == first_fault(state, k),
    decreases count,
{
    if k < count {
        lemma_fault_stays(state, k, (count - 1) as nat);
    }
}

proof fn lemma_stopping_wf(pre: PlanState, post: PlanState)
    requires
        pre.wf(),
        only_stopping(pre, post),
        post.stopping,
    ensures
        post.wf(),
{
    assert(post.shaped());
    assert forall|c: int| 0 <= c < post.tasks@.len() implies #[trigger] post.task_fits(c) by {
        assert(pre.task_fits(c));
        assert(post.done_flags(c) == pre.done_flags(c));
    }
    assert forall|a: int, b: int|
        0 <= a < b < post.tasks@.len() && #[trigger] post.active@[a] && #[trigger] post.active@[b]
            && crate::scheduler::state::group_of(post.tasks@[a]) is Some implies
        crate::scheduler::state::group_of(post.tasks@[a]) != crate::scheduler::state::group_of(
        post.tasks@[b],
    ) by {
        assert(pre.active@[a] && pre.active@[b]);
    }
}

proof fn lemma_none_set(flags: Seq<bool>)
    requires
        forall|i: int| 0 <= i < flags.len() ==> !#[trigger] flags[i],
    ensures
        count_set(flags) == 0,
    decreases flags.len(),
{
    if flags.len() > 0 {
        lemma_none_set(flags.drop_last());
    }
}

proof fn lemma_count_positive(flags: Seq<bool>)
    ensures
        count_set(flags) > 0 <==> exists|i: int| 0 <= i < flags.len() && #[trigger] flags[i],
    decreases flags.len(),
{
    if flags.len() > 0 {
        let rest = flags.drop_last();
        lemma_count_positive(rest);
        if exists|i: int| 0 <= i < flags.len() && #[trigger] flags[i] {
            let i = choose|i: int| 0 <= i < flags.len() && #[trigger] flags[i];
            if i < rest.len() {
                assert(rest[i]);
            }
        }
        if exists|i: int| 0 <= i < rest.len() && #[trigger] rest[i] {
            let i = choose|i: int| 0 <= i < rest.len() && #[trigger] rest[i];
            assert(flags[i]);
        }
        if flags.last() {
            assert(flags[flags.len() - 1]);
        }
    }
}

proof fn lemma_count_update(flags: Seq<bool>, c: int)
    requires
        0 <= c < flags.len(),
        !flags[c],
    ensures
        count_set(flags.update(c, true)) == count_set(flags) + 1,
    decreases flags.len(),
{
    let after = flags.update(c, true);
    if c == flags.len() - 1 {
        assert(after.drop_last() =~= flags.drop_last());
    } else {
        assert(after.drop_last() =~= flags.drop_last().update(c, true));
        lemma_count_update(flags.drop_last(), c);
    }
}

proof fn lemma_count_clear(flags: Seq<bool>, c: int)
    requires
        0 <= c < flags.len(),
        flags[c],
    ensures
        count_set(flags.update(c, false)) == count_set(flags) - 1,
{
    let after = flags.update(c, false);
    lemma_count_update(after, c);
    assert(after.update(c, true) =~= flags);
}

/// A run of a plan that puts every dependency first, and whose finalizers no
/// other task waits for, never ends with tasks left although nothing failed.
pub proof fn law_a_sound_plan_is_never_stuck(scheduler: Scheduler)
    requires
        scheduler.wf(),
        is_dependency_first(scheduler.state.tasks@),
        finalizers_stand_apart(scheduler.state.tasks@),
    ensures
        !scheduler.is_stuck(),
{
    if scheduler.is_stuck() {
        law_a_run_leaves_no_task_behind(scheduler.state);
    }
}

proof fn lemma_fault_is_found(state: PlanState, c: int, count: nat)
    requires
        0 <= c < count <= state.tasks@.len(),
        state.results@[c] is Some,
        state.results@[c]->0 is Err,
    ensures
        first_fault(state, count) is Some,
    decreases count,
{
    if c < count - 1 {
        lemma_fault_is_found(state, c, (count - 1) as nat);
    }
}

proof fn lemma_none_blocked(statuses: Seq<Option<TaskStatus>>, c: int)
    requires
        count_where(statuses, |s: Option<TaskStatus>| is_blocked(s)) == 0,
        0 <= c < statuses.len(),
    ensures
        !is_blocked(statuses[c]),
    decreases statuses.len(),
{
    if c < statuses.len() - 1 {
        lemma_none_blocked(statuses.drop_last(), c);
        assert(statuses.drop_last()[c] == statuses[c]);
    }
}

/// A run that comes to a good end has run every task: once no task runs and
/// none may start, success means that every task of the plan is completed or
/// cached. A cancellation that the loop saw is still there at the end.
pub proof fn law_success_means_every_task_was_run(
    scheduler: Scheduler,
    cancelled: bool,
    summary: ExecutionSummary,
)
    requires
        scheduler.wf(),
        !scheduler.state.any_active(),
        forall|c: int| !#[trigger] scheduler.state.eligible(c),
        is_dependency_first(scheduler.state.tasks@),
        finalizers_stand_apart(scheduler.state.tasks@),
        scheduler.cancelled ==> cancelled,
        summarizes(summary, scheduler.state.statuses()),
        scheduler.outcome(cancelled, summary) is Ok,
    ensures
        forall|c: int|
            0 <= c < scheduler.state.tasks@.len() ==> (#[trigger] scheduler.state.statuses()[c]
                == Some(TaskStatus::Completed) || scheduler.state.statuses()[c] == Some(
                TaskStatus::Cached,
            )),
        summary.completed + summary.cached == scheduler.state.tasks@.len(),
{
    let state = scheduler.state;
    let n = state.tasks@.len();
    assert(!scheduler.failed()) by {
        if scheduler.failed() {
            let c = choose|c: int|
                0 <= c < n && #[trigger] state.results@[c] is Some && state.results@[c]->0 is Err;
            lemma_fault_is_found(state, c, n);
        }
    }
    assert forall|c: int| 0 <= c < n implies !is_error(#[trigger] state.statuses()[c]) by {
        assert(state.statuses()[c] == state.status_of(c));
        if state.results@[c] is Some {
            assert(state.results@[c]->0 is Ok);
        }
    }
    lemma_no_error_counts(state.statuses());
    if !state.stopping {
        law_a_run_leaves_no_task_behind(state);
    } else {
        assert(summary.blocked == 0);
    }
    assert forall|c: int| 0 <= c < n implies (#[trigger] state.statuses()[c] == Some(
        TaskStatus::Completed,
    ) || state.statuses()[c] == Some(TaskStatus::Cached)) by {
        assert(state.statuses()[c] == state.status_of(c));
        assert(!is_error(state.statuses()[c]));
        if state.stopping {
            lemma_none_blocked(state.statuses(), c);
        } else {
            assert(state.results@[c] is Some);
        }
    }
    lemma_all_run_counts(state.statuses());
}

proof fn lemma_no_error_counts(statuses: Seq<Option<TaskStatus>>)
    requires
        forall|c: int| 0 <= c < statuses.len() ==> !is_error(#[trigger] statuses[c]),
    ensures
        count_where(statuses, |s: Option<TaskStatus>| s == Some(TaskStatus::Cancelled)) == 0,
    decreases statuses.len(),
{
    if statuses.len() > 0 {
        lemma_no_error_counts(statuses.drop_last());
        assert(!is_error(statuses[statuses.len() - 1]));
    }
}

proof fn lemma_all_run_counts(statuses: Seq<Option<TaskStatus>>)
    requires
        forall|c: int|
            0 <= c < statuses.len() ==> (#[trigger] statuses[c] == Some(TaskStatus::Completed)
                || statuses[c] == Some(TaskStatus::Cached)),
    ensures
        count_where(statuses, |s: Option<TaskStatus>| s == Some(TaskStatus::Completed))
            + count_where(statuses, |s: Option<TaskStatus>| s == Some(TaskStatus::Cached))
            == statuses.len(),
    decreases statuses.len(),
{
    if statuses.len() > 0 {
        lemma_all_run_counts(statuses.drop_last());
        assert(statuses[statuses.len() - 1] == statuses.last());
    }
}

} // verus!
