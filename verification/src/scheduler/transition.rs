//! How a run moves on: tasks are dispatched, and workers report back.

use vstd::prelude::*;

use crate::cache::error::CacheError;
use crate::events::TaskStatus;
use crate::project::error::TaskNode;
use crate::project::planned::PlannedTask;
use crate::runner::error::{fault_status, RunnerError, TaskResult};
use crate::scheduler::state::{group_of, occurrences, open_entries, plan_ids, PlanState};
use crate::scheduler::state::lemma_open_after_set;
use crate::scheduler::summary::{classify, is_error, summarizes, ExecutionSummary};
use crate::text::{optional_text, same, texts};

verus! {

/// `groups` without `group`.
pub open spec fn without(groups: Seq<Seq<char>>, group: Seq<char>) -> Seq<Seq<char>>
    decreases groups.len(),
{
    if groups.len() == 0 {
        seq![]
    } else if groups.last() == group {
        without(groups.drop_last(), group)
    } else {
        without(groups.drop_last(), group).push(groups.last())
    }
}

proof fn lemma_without(groups: Seq<Seq<char>>, group: Seq<char>, other: Seq<char>)
    ensures
        without(groups, group).contains(other) <==> groups.contains(other) && other != group,
    decreases groups.len(),
{
    if groups.len() > 0 {
        let rest = groups.drop_last();
        lemma_without(rest, group, other);
        assert(groups[groups.len() - 1] == groups.last());
        if groups.contains(other) && other != groups.last() {
            let i = choose|i: int| 0 <= i < groups.len() && groups[i] == other;
            assert(rest[i] == other);
        }
        if rest.contains(other) {
            let i = choose|i: int| 0 <= i < rest.len() && rest[i] == other;
            assert(groups[i] == other);
        }
        if groups.last() != group {
            let kept = without(rest, group);
            let all = kept.push(groups.last());
            assert(all[kept.len() as int] == groups.last());
            if kept.contains(other) {
                let i = choose|i: int| 0 <= i < kept.len() && kept[i] == other;
                assert(all[i] == other);
            }
            if all.contains(other) && other != groups.last() {
                let i = choose|i: int| 0 <= i < all.len() && all[i] == other;
                assert(kept[i] == other);
            }
        }
    }
}

/// The groups that are held once task `task` has let go of its own.
pub open spec fn released_groups(groups: Seq<Seq<char>>, task: PlannedTask) -> Seq<Seq<char>> {
    match group_of(task) {
        Some(group) => without(groups, group),
        None => groups,
    }
}

/// The groups that are held once task `task` has taken its own.
pub open spec fn taken_groups(groups: Seq<Seq<char>>, task: PlannedTask) -> Seq<Seq<char>> {
    match group_of(task) {
        Some(group) => groups.push(group),
        None => groups,
    }
}

/// Task `c` has been handed to a worker.
pub open spec fn dispatched(pre: PlanState, post: PlanState, c: int, can_cache: bool) -> bool {
    &&& post.same_plan(pre)
    &&& post.remaining@ == pre.remaining@
    &&& post.ready@ == pre.ready@.update(c, false)
    &&& post.active@ == pre.active@.update(c, true)
    &&& post.settled@ == pre.settled@
    &&& post.succeeded@ == pre.succeeded@
    &&& post.cacheable@ == pre.cacheable@.update(c, can_cache)
    &&& post.task_keys@ == pre.task_keys@
    &&& post.results@ == pre.results@
    &&& texts(post.active_groups@) == taken_groups(texts(pre.active_groups@), pre.tasks@[c])
    &&& post.stopping == pre.stopping
}

/// Whether the end of a task unblocks `o`: a good end unblocks every dependent,
/// any end unblocks finalizers.
pub open spec fn unblocks(state: PlanState, o: int, good: bool) -> bool {
    good || state.tasks@[o].finalizer
}

/// How many dependencies of `o` are closed by those of `list` that are it.
pub open spec fn freed(state: PlanState, o: int, list: Seq<usize>, good: bool) -> nat {
    if unblocks(state, o, good) {
        occurrences(list, o)
    } else {
        0
    }
}

/// Task `o` has lost `count` open dependencies, and is ready if they were the
/// last ones.
pub open spec fn told(
    pre: PlanState,
    remaining: Seq<usize>,
    ready: Seq<bool>,
    o: int,
    count: nat,
) -> bool {
    &&& remaining[o] == pre.remaining@[o] - count
    &&& ready[o] == (pre.ready@[o] || (count > 0 && remaining[o] == 0))
}

/// Task `c` is over, and its dependents have been told.
pub open spec fn settled_in(pre: PlanState, post: PlanState, c: int, good: bool) -> bool {
    &&& post.same_plan(pre)
    &&& post.active@ == pre.active@.update(c, false)
    &&& post.settled@ == pre.settled@.update(c, true)
    &&& post.succeeded@ == pre.succeeded@.update(c, good)
    &&& post.cacheable@ == pre.cacheable@
    &&& texts(post.active_groups@) == released_groups(texts(pre.active_groups@), pre.tasks@[c])
    &&& post.remaining@.len() == pre.remaining@.len()
    &&& post.ready@.len() == pre.ready@.len()
    &&& forall|o: int|
        0 <= o < pre.tasks@.len() ==> #[trigger] told(
            pre,
            post.remaining@,
            post.ready@,
            o,
            freed(pre, o, pre.dependents@[c]@, good),
        )
}

/// A worker has reported how task `c` ended.
pub open spec fn completed(
    pre: PlanState,
    post: PlanState,
    c: int,
    result: Result<TaskResult, RunnerError>,
    key: Option<Seq<char>>,
    cache_failed: bool,
) -> bool {
    let good = result is Ok && !cache_failed;
    &&& settled_in(pre, post, c, good)
    &&& post.results@ == pre.results@.update(c, Some(result))
    &&& post.task_keys@.len() == pre.task_keys@.len()
    &&& forall|o: int|
        0 <= o < pre.tasks@.len() ==> optional_text(#[trigger] post.task_keys@[o]) == if o == c
            && key is Some {
            key
        } else {
            optional_text(pre.task_keys@[o])
        }
    &&& post.stopping == (pre.stopping || !good)
}

proof fn lemma_occurrences_prefix(list: Seq<usize>, k: int, x: int)
    requires
        0 <= k <= list.len(),
    ensures
        occurrences(list.take(k), x) <= occurrences(list, x),
    decreases list.len(),
{
    if k == list.len() {
        assert(list.take(k) =~= list);
    } else {
        lemma_occurrences_prefix(list.drop_last(), k, x);
        assert(list.drop_last().take(k) =~= list.take(k));
    }
}

/// How many dependencies of `o` the end of task `c` closes is at most how many
/// are open.
proof fn lemma_freed_bound(state: PlanState, c: int, o: int, good: bool)
    requires
        state.fits(),
        0 <= c < state.tasks@.len(),
        0 <= o < state.tasks@.len(),
        state.active@[c],
        unblocks(state, o, good),
    ensures
        occurrences(state.dependencies@[o]@, c) <= state.remaining@[o],
        open_entries(
            state.dependencies@[o]@,
            state.done_flags(o).update(c, true),
        ) == state.remaining@[o] - occurrences(state.dependencies@[o]@, c),
{
    assert(state.task_fits(c));
    assert(state.task_fits(o));
    assert forall|j: int| 0 <= j < state.dependencies@[o]@.len() implies (
    #[trigger] state.dependencies@[o]@[j]) < state.done_flags(o).len() by {}
    lemma_open_after_set(state.dependencies@[o]@, state.done_flags(o), c);
}

/// After the end of task `c` every task is still in just one state.
proof fn lemma_settled_fits(pre: PlanState, post: PlanState, c: int, good: bool)
    requires
        pre.fits(),
        0 <= c < pre.tasks@.len(),
        pre.active@[c],
        settled_in(pre, post, c, good),
        post.results@.len() == pre.results@.len(),
        post.task_keys@.len() == pre.task_keys@.len(),
        forall|o: int|
            0 <= o < pre.tasks@.len() && o != c ==> (#[trigger] post.results@[o] is Some
                == pre.results@[o] is Some),
    ensures
        post.fits(),
{
    assert(pre.task_fits(c));
    assert(post.shaped());
    assert forall|o: int| 0 <= o < post.tasks@.len() implies #[trigger] post.task_fits(o) by {
        assert(pre.task_fits(o));
        assert(told(
            pre,
            post.remaining@,
            post.ready@,
            o,
            freed(pre, o, pre.dependents@[c]@, good),
        ));
        assert(occurrences(pre.dependents@[c]@, o) == occurrences(pre.dependencies@[o]@, c));
        if unblocks(pre, o, good) {
            lemma_freed_bound(pre, c, o, good);
            assert(post.done_flags(o) == pre.done_flags(o).update(c, true));
        } else {
            assert(post.done_flags(o) =~= pre.done_flags(o));
        }
        if o != c && post.active@[o] {
            assert(pre.active@[o]);
            if let Some(group) = group_of(pre.tasks@[o]) {
                if let Some(own) = group_of(pre.tasks@[c]) {
                    lemma_without(texts(pre.active_groups@), own, group);
                    if o < c {
                        assert(pre.active@[o] && pre.active@[c]);
                    } else {
                        assert(pre.active@[c] && pre.active@[o]);
                    }
                }
            }
        }
        if o != c {
            assert(post.results@[o] is Some == pre.results@[o] is Some);
        }
    }
    assert forall|a: int, b: int|
        0 <= a < b < post.tasks@.len() && #[trigger] post.active@[a] && #[trigger] post.active@[b]
            && group_of(post.tasks@[a]) is Some implies group_of(post.tasks@[a]) != group_of(
        post.tasks@[b],
    ) by {
        assert(pre.active@[a] && pre.active@[b]);
    }
}

/// A run goes on after the end of task `c`, unless it is stopping.
proof fn lemma_settled_flows(pre: PlanState, post: PlanState, c: int, good: bool)
    requires
        pre.wf(),
        0 <= c < pre.tasks@.len(),
        pre.active@[c],
        settled_in(pre, post, c, good),
        post.results@.len() == pre.results@.len(),
        post.results@[c] is Some,
        forall|o: int|
            0 <= o < pre.tasks@.len() && o != c ==> (#[trigger] post.results@[o] is Some
                == pre.results@[o] is Some),
        post.stopping == (pre.stopping || !good),
    ensures
        post.flows(),
{
    if !post.stopping {
        assert forall|o: int| 0 <= o < post.tasks@.len() implies #[trigger] post.task_flows(o) by {
            assert(pre.task_flows(o));
            assert(pre.task_fits(o));
            assert(told(
                pre,
                post.remaining@,
                post.ready@,
                o,
                freed(pre, o, pre.dependents@[c]@, good),
            ));
            if o != c {
                assert(post.results@[o] is Some == pre.results@[o] is Some);
            }
        }
        assert forall|group: Seq<char>| #[trigger]
            texts(post.active_groups@).contains(group) implies post.held(group) by {
            if let Some(own) = group_of(pre.tasks@[c]) {
                lemma_without(texts(pre.active_groups@), own, group);
            }
            assert(texts(pre.active_groups@).contains(group));
            assert(pre.held(group));
            let d = choose|d: int|
                0 <= d < pre.tasks@.len() && #[trigger] pre.active@[d] && group_of(pre.tasks@[d])
                    == Some(group);
            assert(d != c);
            assert(post.active@[d]);
        }
    }
}

impl PlanState {
    /// Record that `node` has been dispatched to a worker.
    pub fn mark_dispatched(&mut self, node: &TaskNode, can_cache: bool)
        requires
            old(self).wf(),
            exists|c: int|
                #[trigger] old(self).eligible(c) && old(self).tasks@[c].id@ == node.id@,
        ensures
            final(self).wf(),
            forall|c: int|
                0 <= c < old(self).tasks@.len() && (#[trigger] old(self).tasks@[c]).id@ == node.id@
                    ==> dispatched(*old(self), *final(self), c, can_cache),
    {
        let ghost pre = *self;
        proof {
            let w = choose|w: int| #[trigger] self.eligible(w) && self.tasks@[w].id@ == node.id@;
            assert(plan_ids(self.tasks@)[w] == node.id@);
        }
        let c: usize = self.place(node);
        assert(self.eligible(c as int));
        self.ready.set(c, false);
        self.cacheable.set(c, can_cache);
        self.active.set(c, true);
        let group: Option<String> = crate::text::copy_optional(&self.tasks[c].resource_group);
        let ghost held = texts(self.active_groups@);
        if let Some(name) = group {
            self.active_groups.push(name);
            assert(texts(self.active_groups@) =~= held.push(name@));
        }
        proof {
            let post = *self;
            assert(dispatched(pre, post, c as int, can_cache));
            assert(post.shaped());
            let own = group_of(pre.tasks@[c as int]);
            assert forall|g: Seq<char>| held.contains(g) implies texts(
                post.active_groups@,
            ).contains(g) by {
                let i = choose|i: int| 0 <= i < held.len() && held[i] == g;
                assert(texts(post.active_groups@)[i] == g);
            }
            assert forall|o: int| 0 <= o < post.tasks@.len() implies #[trigger] post.task_fits(
                o,
            ) by {
                assert(pre.task_fits(o));
                assert(post.done_flags(o) == pre.done_flags(o));
                if o == c {
                    if let Some(g) = own {
                        assert(texts(post.active_groups@)[held.len() as int] == g);
                    }
                }
            }
            assert forall|a: int, b: int|
                0 <= a < b < post.tasks@.len() && #[trigger] post.active@[a]
                    && #[trigger] post.active@[b] && group_of(post.tasks@[a]) is Some implies
                group_of(post.tasks@[a]) != group_of(post.tasks@[b]) by {
                assert(pre.task_fits(a) && pre.task_fits(b));
                if a != c && b != c {
                    assert(pre.active@[a] && pre.active@[b]);
                } else if a == c {
                    assert(pre.active@[b]);
                } else {
                    assert(pre.active@[a]);
                }
            }
            if !post.stopping {
                assert forall|o: int| 0 <= o < post.tasks@.len() implies
                    #[trigger] post.task_flows(o) by {
                    assert(pre.task_flows(o));
                }
                assert forall|group: Seq<char>| #[trigger]
                    texts(post.active_groups@).contains(group) implies post.held(group) by {
                    if own == Some(group) {
                        assert(post.active@[c as int]);
                    } else {
                        let i = choose|i: int|
                            0 <= i < texts(post.active_groups@).len() && texts(
                                post.active_groups@,
                            )[i] == group;
                        assert(held[i] == group);
                        assert(held.contains(group));
                        assert(pre.held(group));
                        let d = choose|d: int|
                            0 <= d < pre.tasks@.len() && #[trigger] pre.active@[d] && group_of(
                                pre.tasks@[d],
                            ) == Some(group);
                        assert(post.active@[d]);
                    }
                }
            }
        }
    }

    /// Release the group of task `c`.
    fn release_group(&mut self, c: usize)
        requires
            c < old(self).tasks@.len(),
        ensures
            texts(final(self).active_groups@) == released_groups(
                texts(old(self).active_groups@),
                old(self).tasks@[c as int],
            ),
            final(self).same_plan(*old(self)),
            final(self).remaining == old(self).remaining,
            final(self).ready == old(self).ready,
            final(self).active == old(self).active,
            final(self).settled == old(self).settled,
            final(self).succeeded == old(self).succeeded,
            final(self).cacheable == old(self).cacheable,
            final(self).task_keys == old(self).task_keys,
            final(self).results == old(self).results,
            final(self).stopping == old(self).stopping,
    {
        if self.tasks[c].resource_group.is_none() {
            return;
        }
        let group: String = match &self.tasks[c].resource_group {
            Some(group) => group.clone(),
            None => String::new(),
        };
        let ghost all = texts(self.active_groups@);
        let mut kept: Vec<String> = Vec::new();
        let mut i: usize = 0;
        assert(texts(kept@) =~= seq![]);
        assert(all.take(0) =~= seq![]);
        while i < self.active_groups.len()
            invariant
                i <= self.active_groups@.len(),
                all == texts(self.active_groups@),
                texts(kept@) == without(all.take(i as int), group@),
                *self == *old(self),
            decreases self.active_groups.len() - i,
        {
            assert(all.take(i as int + 1).drop_last() =~= all.take(i as int));
            assert(all.take(i as int + 1).last() == self.active_groups@[i as int]@);
            if !same(self.active_groups[i].as_str(), group.as_str()) {
                let ghost before = texts(kept@);
                kept.push(self.active_groups[i].clone());
                assert(texts(kept@) =~= before.push(self.active_groups@[i as int]@));
            }
            i += 1;
        }
        assert(all.take(i as int) =~= all);
        self.active_groups = kept;
    }

    /// Take task `c` out of the running ones and tell its dependents.
    fn settle(&mut self, c: usize, good: bool)
        requires
            old(self).fits(),
            c < old(self).tasks@.len(),
            old(self).active@[c as int],
        ensures
            final(self).fits(),
            settled_in(*old(self), *final(self), c as int, good),
            final(self).results == old(self).results,
            final(self).task_keys == old(self).task_keys,
            final(self).stopping == old(self).stopping,
    {
        let ghost pre = *self;
        proof {
            assert(pre.task_fits(c as int));
        }
        self.release_group(c);
        self.active.set(c, false);
        self.settled.set(c, true);
        self.succeeded.set(c, good);
        let ghost list = pre.dependents@[c as int]@;
        let mut k: usize = 0;
        assert(list.take(0) =~= seq![]);
        while k < self.dependents[c].len()
            invariant
                k <= list.len(),
                c < pre.tasks@.len(),
                pre.fits(),
                pre.active@[c as int],
                list == pre.dependents@[c as int]@,
                self.same_plan(pre),
                self.active@ == pre.active@.update(c as int, false),
                self.settled@ == pre.settled@.update(c as int, true),
                self.succeeded@ == pre.succeeded@.update(c as int, good),
                self.cacheable == pre.cacheable,
                self.task_keys == pre.task_keys,
                self.results == pre.results,
                self.stopping == pre.stopping,
                texts(self.active_groups@) == released_groups(
                    texts(pre.active_groups@),
                    pre.tasks@[c as int],
                ),
                self.remaining@.len() == pre.remaining@.len(),
                self.ready@.len() == pre.ready@.len(),
                forall|o: int|
                    0 <= o < pre.tasks@.len() ==> #[trigger] told(
                        pre,
                        self.remaining@,
                        self.ready@,
                        o,
                        freed(pre, o, list.take(k as int), good),
                    ),
            decreases list.len() - k,
        {
            let child: usize = self.dependents[c][k];
            assert(child == list[k as int]);
            assert(child < pre.tasks@.len());
            assert(list.take(k as int + 1).drop_last() =~= list.take(k as int));
            assert(list.take(k as int + 1).last() == child);
            let ghost before = *self;
            if good || self.tasks[child].finalizer {
                proof {
                    assert(told(
                        pre,
                        self.remaining@,
                        self.ready@,
                        child as int,
                        freed(pre, child as int, list.take(k as int), good),
                    ));
                    lemma_freed_bound(pre, c as int, child as int, good);
                    lemma_occurrences_prefix(list, k as int + 1, child as int);
                    assert(occurrences(list, child as int) == occurrences(
                        pre.dependencies@[child as int]@,
                        c as int,
                    ));
                    assert(self.remaining@[child as int] >= 1);
                }
                let left: usize = self.remaining[child] - 1;
                self.remaining.set(child, left);
                if left == 0 {
                    self.ready.set(child, true);
                }
            }
            k += 1;
            assert forall|o: int| 0 <= o < pre.tasks@.len() implies #[trigger] told(
                pre,
                self.remaining@,
                self.ready@,
                o,
                freed(pre, o, list.take(k as int), good),
            ) by {
                assert(told(
                    pre,
                    before.remaining@,
                    before.ready@,
                    o,
                    freed(pre, o, list.take(k - 1), good),
                ));
            }
        }
        assert(list.take(k as int) =~= list);
        proof {
            let post = *self;
            assert(settled_in(pre, post, c as int, good));
            lemma_settled_fits(pre, post, c as int, good);
        }
    }

    /// Record one worker completion; the cache failure is handed back.
    pub fn complete(
        &mut self,
        node: TaskNode,
        result: Result<TaskResult, RunnerError>,
        key: Option<String>,
        cache_error: Option<CacheError>,
    ) -> (r: Option<CacheError>)
        requires
            old(self).wf(),
            exists|c: int|
                0 <= c < old(self).tasks@.len() && #[trigger] old(self).active@[c]
                    && old(self).tasks@[c].id@ == node.id@,
        ensures
            r == cache_error,
            final(self).wf(),
            forall|c: int|
                0 <= c < old(self).tasks@.len() && (#[trigger] old(self).tasks@[c]).id@ == node.id@
                    ==> completed(
                    *old(self),
                    *final(self),
                    c,
                    result,
                    optional_text(key),
                    cache_error is Some,
                ),
    {
        let ghost pre = *self;
        proof {
            let w = choose|w: int|
                0 <= w < self.tasks@.len() && #[trigger] self.active@[w] && self.tasks@[w].id@
                    == node.id@;
            assert(plan_ids(self.tasks@)[w] == node.id@);
        }
        let c: usize = self.place(&node);
        assert(self.active@[c as int]);
        let good: bool = result.is_ok() && cache_error.is_none();
        let ghost spec_key = optional_text(key);
        self.settle(c, good);
        let ghost middle = *self;
        if let Some(key) = key {
            self.task_keys.set(c, Some(key));
        }
        if !good {
            self.stopping = true;
        }
        self.results.set(c, Some(result));
        proof {
            let post = *self;
            assert(middle.task_fits(c as int));
            assert(post.remaining@ == middle.remaining@);
            assert(post.ready@ == middle.ready@);
            assert(post.active@ == middle.active@);
            assert(post.settled@ == middle.settled@);
            assert(post.succeeded@ == middle.succeeded@);
            assert(settled_in(pre, post, c as int, good));
            lemma_settled_fits(pre, post, c as int, good);
            lemma_settled_flows(pre, post, c as int, good);
        }
        cache_error
    }

    /// A worker could not work out the cache state of `node`, which never
    /// started. Its group is free again and finalizers may go on.
    pub fn cache_failed(&mut self, node: &TaskNode)
        requires
            old(self).wf(),
            exists|c: int|
                0 <= c < old(self).tasks@.len() && #[trigger] old(self).active@[c]
                    && old(self).tasks@[c].id@ == node.id@,
        ensures
            final(self).wf(),
            final(self).stopping,
            final(self).results == old(self).results,
            final(self).task_keys == old(self).task_keys,
            forall|c: int|
                0 <= c < old(self).tasks@.len() && (#[trigger] old(self).tasks@[c]).id@ == node.id@
                    ==> settled_in(*old(self), *final(self), c, false),
    {
        let ghost pre = *self;
        proof {
            let w = choose|w: int|
                0 <= w < self.tasks@.len() && #[trigger] self.active@[w] && self.tasks@[w].id@
                    == node.id@;
            assert(plan_ids(self.tasks@)[w] == node.id@);
        }
        let c: usize = self.place(node);
        assert(self.active@[c as int]);
        self.settle(c, false);
        self.stopping = true;
        proof {
            let post = *self;
            assert(settled_in(pre, post, c as int, false));
            lemma_settled_fits(pre, post, c as int, false);
        }
    }

    /// A worker could not announce `node`, which never started. Its group stays
    /// held and nothing is unblocked.
    pub fn output_failed(&mut self, node: &TaskNode)
        requires
            old(self).wf(),
            exists|c: int|
                0 <= c < old(self).tasks@.len() && #[trigger] old(self).active@[c]
                    && old(self).tasks@[c].id@ == node.id@,
        ensures
            final(self).wf(),
            final(self).same_plan(*old(self)),
            final(self).stopping,
            final(self).remaining == old(self).remaining,
            final(self).ready == old(self).ready,
            final(self).settled == old(self).settled,
            final(self).succeeded == old(self).succeeded,
            final(self).cacheable == old(self).cacheable,
            final(self).results == old(self).results,
            final(self).task_keys == old(self).task_keys,
            final(self).active_groups == old(self).active_groups,
            forall|c: int|
                0 <= c < old(self).tasks@.len() && (#[trigger] old(self).tasks@[c]).id@ == node.id@
                    ==> final(self).active@ == old(self).active@.update(c, false),
    {
        let ghost pre = *self;
        proof {
            let w = choose|w: int|
                0 <= w < self.tasks@.len() && #[trigger] self.active@[w] && self.tasks@[w].id@
                    == node.id@;
            assert(plan_ids(self.tasks@)[w] == node.id@);
        }
        let c: usize = self.place(node);
        self.active.set(c, false);
        self.stopping = true;
        proof {
            let post = *self;
            assert(post.shaped());
            assert forall|o: int| 0 <= o < post.tasks@.len() implies #[trigger] post.task_fits(
                o,
            ) by {
                assert(pre.task_fits(o));
                assert(post.done_flags(o) == pre.done_flags(o));
            }
            assert forall|a: int, b: int|
                0 <= a < b < post.tasks@.len() && #[trigger] post.active@[a]
                    && #[trigger] post.active@[b] && group_of(post.tasks@[a]) is Some implies
                group_of(post.tasks@[a]) != group_of(post.tasks@[b]) by {
                assert(pre.active@[a] && pre.active@[b]);
            }
        }
    }

    /// What became of task `c`; nothing where it never ran.
    pub open spec fn status_of(self, c: int) -> Option<TaskStatus> {
        match self.results@[c] {
            None => None,
            Some(Ok(result)) => if result.cached {
                Some(TaskStatus::Cached)
            } else {
                Some(TaskStatus::Completed)
            },
            Some(Err(error)) => Some(fault_status(error@)),
        }
    }

    /// What became of each task.
    pub open spec fn statuses(self) -> Seq<Option<TaskStatus>> {
        Seq::new(self.tasks@.len(), |c: int| self.status_of(c))
    }

    /// Classify the completed plan and return the first error node.
    pub fn finish(&self) -> (r: (ExecutionSummary, Option<TaskNode>))
        requires
            self.wf(),
        ensures
            summarizes(r.0, self.statuses()),
            r.0.completed + r.0.cached + r.0.failed + r.0.cancelled + r.0.blocked
                == self.tasks@.len(),
            match r.1 {
                Some(node) => exists|i: int|
                    0 <= i < self.tasks@.len() && (#[trigger] self.tasks@[i]).id@ == node.id@
                        && is_error(self.statuses()[i]) && forall|j: int|
                        0 <= j < i ==> !is_error(#[trigger] self.statuses()[j]),
                None => forall|j: int|
                    0 <= j < self.tasks@.len() ==> !is_error(#[trigger] self.statuses()[j]),
            },
    {
        let mut nodes: Vec<TaskNode> = Vec::new();
        let mut statuses: Vec<Option<TaskStatus>> = Vec::new();
        let mut c: usize = 0;
        while c < self.tasks.len()
            invariant
                c <= self.tasks@.len(),
                self.wf(),
                nodes@.len() == c,
                statuses@.len() == c,
                forall|i: int|
                    0 <= i < c ==> (#[trigger] nodes@[i]).id@ == self.tasks@[i].id@,
                forall|i: int| 0 <= i < c ==> #[trigger] statuses@[i] == self.status_of(i),
            decreases self.tasks.len() - c,
        {
            nodes.push(self.tasks[c].node());
            let status: Option<TaskStatus> = match &self.results[c] {
                None => None,
                Some(Ok(result)) => if result.cached {
                    Some(TaskStatus::Cached)
                } else {
                    Some(TaskStatus::Completed)
                },
                Some(Err(error)) => Some(error.status()),
            };
            statuses.push(status);
            c += 1;
        }
        assert(statuses@ =~= self.statuses());
        let (summary, first) = classify(&nodes, &statuses);
        proof {
            if first is Some {
                let node = first->0;
                let i = choose|i: int|
                    0 <= i < nodes@.len() && #[trigger] nodes@[i] == node && is_error(
                        statuses@[i],
                    ) && forall|j: int| 0 <= j < i ==> !is_error(#[trigger] statuses@[j]);
                assert(self.tasks@[i].id@ == node.id@);
            }
        }
        (summary, first)
    }
}

/// Whether the named task stands before the given place of a plan.
pub open spec fn is_planned_before(plan: Seq<PlannedTask>, c: int, id: Seq<char>) -> bool {
    exists|d: int| 0 <= d < c && (#[trigger] plan[d]).id@ == id
}

// ---------------------------------------------------------------------------
// Laws
// ---------------------------------------------------------------------------
/// Whether every dependency in a plan comes before the task that names it.
pub open spec fn is_dependency_first(plan: Seq<PlannedTask>) -> bool {
    forall|c: int, j: int|
        0 <= c < plan.len() && 0 <= j < plan[c].depends_on@.len() ==> is_planned_before(
            plan,
            c,
            (#[trigger] plan[c].depends_on@[j]).id@,
        )
}

/// Whether no other task waits for a finalizer.
pub open spec fn finalizers_stand_apart(plan: Seq<PlannedTask>) -> bool {
    forall|c: int, j: int, d: int|
        0 <= c < plan.len() && 0 <= d < plan.len() && 0 <= j < plan[c].depends_on@.len() && (
        #[trigger] plan[d]).id@ == (#[trigger] plan[c].depends_on@[j]).id@ && plan[d].finalizer
            ==> plan[c].finalizer
}

proof fn lemma_dependencies_are_earlier(state: PlanState, c: int, j: int)
    requires
        state.shaped(),
        is_dependency_first(state.tasks@),
        0 <= c < state.tasks@.len(),
        0 <= j < state.dependencies@[c]@.len(),
    ensures
        state.dependencies@[c]@[j] < c,
{
    let p = state.dependencies@[c]@[j] as int;
    assert(state.tasks@[p].id@ == state.tasks@[c].depends_on@[j].id@);
    let d = choose|d: int|
        0 <= d < c && (#[trigger] state.tasks@[d]).id@ == state.tasks@[c].depends_on@[j].id@;
    assert(plan_ids(state.tasks@)[p] == plan_ids(state.tasks@)[d]);
}

/// A task that is not over, although every task before it in the plan that it
/// can wait for is, is still waiting for its turn.
proof fn lemma_first_open_is_ready(state: PlanState, c: int)
    requires
        state.wf(),
        !state.stopping,
        !state.any_active(),
        is_dependency_first(state.tasks@),
        finalizers_stand_apart(state.tasks@),
        0 <= c < state.tasks@.len(),
        forall|d: int|
            0 <= d < c && (state.tasks@[c].finalizer || !state.tasks@[d].finalizer)
                ==> #[trigger] state.settled@[d],
        !state.settled@[c],
    ensures
        state.ready@[c],
        group_of(state.tasks@[c]) matches Some(group) ==> !texts(
            state.active_groups@,
        ).contains(group),
{
    assert(state.task_fits(c));
    assert(state.task_flows(c));
    assert forall|j: int| 0 <= j < state.dependencies@[c]@.len() implies state.done_flags(
        c,
    )[#[trigger] state.dependencies@[c]@[j] as int] by {
        lemma_dependencies_are_earlier(state, c, j);
        let d = state.dependencies@[c]@[j] as int;
        assert(state.tasks@[d].id@ == state.tasks@[c].depends_on@[j].id@);
        assert(state.settled@[d]);
        assert(state.task_flows(d));
    }
    crate::scheduler::state::lemma_open_zero(state.dependencies@[c]@, state.done_flags(c));
    if let Some(group) = group_of(state.tasks@[c]) {
        if texts(state.active_groups@).contains(group) {
            assert(state.held(group));
        }
    }
}

proof fn lemma_others_are_over(state: PlanState, count: int)
    requires
        state.wf(),
        !state.stopping,
        !state.any_active(),
        forall|c: int| !#[trigger] state.eligible(c),
        is_dependency_first(state.tasks@),
        finalizers_stand_apart(state.tasks@),
        0 <= count <= state.tasks@.len(),
    ensures
        forall|c: int|
            0 <= c < count && !(#[trigger] state.tasks@[c]).finalizer ==> state.settled@[c],
    decreases count,
{
    if count > 0 {
        let c = count - 1;
        lemma_others_are_over(state, c);
        if !state.tasks@[c].finalizer && !state.settled@[c] {
            assert forall|d: int|
                0 <= d < c && (state.tasks@[c].finalizer || !state.tasks@[d].finalizer) implies
                #[trigger] state.settled@[d] by {
                assert(!state.tasks@[d].finalizer);
            }
            lemma_first_open_is_ready(state, c);
            assert(state.eligible(c));
        }
    }
}

proof fn lemma_all_are_over(state: PlanState, count: int)
    requires
        state.wf(),
        !state.stopping,
        !state.any_active(),
        forall|c: int| !#[trigger] state.eligible(c),
        is_dependency_first(state.tasks@),
        finalizers_stand_apart(state.tasks@),
        0 <= count <= state.tasks@.len(),
    ensures
        forall|c: int| 0 <= c < count ==> #[trigger] state.settled@[c],
    decreases count,
{
    lemma_others_are_over(state, state.tasks@.len() as int);
    if count > 0 {
        let c = count - 1;
        lemma_all_are_over(state, c);
        if state.tasks@[c].finalizer && !state.settled@[c] {
            lemma_first_open_is_ready(state, c);
            assert forall|o: int|
                0 <= o < state.tasks@.len() && !(#[trigger] state.tasks@[o]).finalizer implies
                state.results@[o] is Some by {
                assert(state.settled@[o]);
                assert(state.task_flows(o));
            }
            assert(state.finalizers_may_start());
            assert(state.eligible(c));
        }
    }
}

/// A run that nothing stops leaves no task behind: once no task runs and none
/// may start, every task of the plan has ended well and has a result.
pub proof fn law_a_run_leaves_no_task_behind(state: PlanState)
    requires
        state.wf(),
        !state.stopping,
        !state.any_active(),
        forall|c: int| !#[trigger] state.eligible(c),
        is_dependency_first(state.tasks@),
        finalizers_stand_apart(state.tasks@),
    ensures
        forall|c: int|
            0 <= c < state.tasks@.len() ==> #[trigger] state.results@[c] is Some
                && state.succeeded@[c],
{
    lemma_all_are_over(state, state.tasks@.len() as int);
    assert forall|c: int| 0 <= c < state.tasks@.len() implies #[trigger] state.results@[c] is Some
        && state.succeeded@[c] by {
        assert(state.settled@[c]);
        assert(state.task_flows(c));
    }
}

/// A task that runs, or could run, has no open dependency: every dependency of
/// a finalizer is over, and every dependency of any other task succeeded.
pub proof fn law_dependencies_come_first(state: PlanState, c: int)
    requires
        state.wf(),
        0 <= c < state.tasks@.len(),
        state.ready@[c] || state.active@[c],
    ensures
        forall|j: int|
            0 <= j < state.dependencies@[c]@.len()
                ==> state.settled@[#[trigger] state.dependencies@[c]@[j] as int],
        !state.tasks@[c].finalizer ==> forall|j: int|
            0 <= j < state.dependencies@[c]@.len()
                ==> state.succeeded@[#[trigger] state.dependencies@[c]@[j] as int],
{
    assert(state.task_fits(c));
    crate::scheduler::state::lemma_open_zero(state.dependencies@[c]@, state.done_flags(c));
    assert forall|j: int| 0 <= j < state.dependencies@[c]@.len() implies state.settled@[
    #[trigger] state.dependencies@[c]@[j] as int] by {
        let d = state.dependencies@[c]@[j] as int;
        assert(state.done_flags(c)[d]);
        assert(state.task_fits(d));
    }
}

/// Two tasks that run at the same time hold different resource groups.
pub proof fn law_groups_are_exclusive(state: PlanState, a: int, b: int)
    requires
        state.wf(),
        0 <= a < state.tasks@.len(),
        0 <= b < state.tasks@.len(),
        a != b,
        state.active@[a],
        state.active@[b],
        group_of(state.tasks@[a]) is Some,
    ensures
        group_of(state.tasks@[a]) != group_of(state.tasks@[b]),
{
    if a < b {
    } else {
        assert(state.active@[b] && state.active@[a]);
    }
}

/// Once a run is stopping, only finalizers start.
pub proof fn law_stopping_admits_only_finalizers(state: PlanState, c: int)
    requires
        state.stopping,
        state.eligible(c),
    ensures
        state.tasks@[c].finalizer,
{
}

/// A finalizer starts only when no other task runs or waits for a result.
pub proof fn law_finalizers_come_last(state: PlanState, c: int, o: int)
    requires
        state.wf(),
        state.eligible(c),
        state.tasks@[c].finalizer,
        0 <= o < state.tasks@.len(),
        !state.tasks@[o].finalizer,
    ensures
        !state.active@[o],
        !state.stopping ==> state.results@[o] is Some,
{
    assert(state.task_fits(o));
    if !state.stopping {
        assert(state.results@[o] is Some);
    }
}

} // verus!
