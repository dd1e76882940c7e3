//! The mathematical model of one `run_until_stalled` call.
//!
//! A run is described by its trace: the sequence of single-task polls the
//! scheduler performed, in order. [`run_replay`] replays a trace against
//! the scheduler's polling discipline — poll every in-flight task once
//! per round, append spawned children to the end of the round, drop
//! completed tasks immediately, and start another round exactly when the
//! round just finished completed at least one task — and says whether the
//! trace carries a given start state to a given end state. The public
//! lemmas in this module are the scheduler's general laws, proved once for
//! every task type and every trace.

use crate::task::Task;
use vstd::prelude::*;

verus! {

/// One poll of one task, as recorded in a run's trace.
pub struct PollRecord<T, E> {
    /// The state the task was polled in.
    pub pre: T,
    /// The state it suspended in, or `None` if it completed.
    pub next: Option<T>,
    /// The events it dispatched during the poll, in dispatch order.
    pub events: Seq<E>,
    /// The tasks it spawned during the poll, in spawn order.
    pub spawned: Seq<T>,
}

/// Replay a trace from the middle of a poll round.
///
/// `polled` holds the tasks already polled this round that suspended, in
/// poll order; `unpolled` the tasks still owed a poll this round, in poll
/// order; `acc` the outbox so far; `completed` whether this round has
/// completed a task yet. The replay consumes one trace record per poll.
/// A round ends when nothing is left unpolled: if no task at all remains,
/// or the round completed none, the run is over and the remaining trace
/// must be empty; otherwise completing a task may have unblocked another,
/// so a fresh round begins over the survivors.
pub open spec fn run_replay<E, T: Task<E>>(
    polled: Seq<T>,
    unpolled: Seq<T>,
    acc: Seq<E>,
    completed: bool,
    tr: Seq<PollRecord<T, E>>,
    post_tasks: Seq<T>,
    post_events: Seq<E>,
) -> bool
    decreases tr.len(), (if unpolled.len() == 0 { 1int } else { 0int }),
{
    if unpolled.len() == 0 {
        if polled.len() == 0 || !completed {
            tr.len() == 0 && post_tasks == polled && post_events == acc
        } else {
            run_replay(Seq::<T>::empty(), polled, acc, false, tr, post_tasks, post_events)
        }
    } else {
        tr.len() > 0 && {
            let r = tr[0];
            &&& r.pre == unpolled[0]
            &&& T::may_step(r.pre, r.next, r.events, r.spawned)
            &&& run_replay(
                match r.next {
                    Some(t) => polled.push(t),
                    None => polled,
                },
                unpolled.drop_first() + r.spawned,
                acc + r.events,
                completed || r.next is None,
                tr.drop_first(),
                post_tasks,
                post_events,
            )
        }
    }
}

/// Whether `tr` is the trace of a run that starts with tasks `pre_tasks`
/// and outbox `pre_events` and stalls with tasks `post_tasks` and outbox
/// `post_events`.
pub open spec fn valid_run<E, T: Task<E>>(
    pre_tasks: Seq<T>,
    pre_events: Seq<E>,
    tr: Seq<PollRecord<T, E>>,
    post_tasks: Seq<T>,
    post_events: Seq<E>,
) -> bool {
    run_replay(Seq::<T>::empty(), pre_tasks, pre_events, false, tr, post_tasks, post_events)
}

/// How many polls in the trace completed their task.
pub open spec fn completions<E, T: Task<E>>(tr: Seq<PollRecord<T, E>>) -> nat
    decreases tr.len(),
{
    if tr.len() == 0 {
        0
    } else {
        (if tr[0].next is None {
            1nat
        } else {
            0nat
        }) + completions::<E, T>(tr.drop_first())
    }
}

/// How many tasks the polls in the trace spawned.
pub open spec fn spawn_count<E, T: Task<E>>(tr: Seq<PollRecord<T, E>>) -> nat
    decreases tr.len(),
{
    if tr.len() == 0 {
        0
    } else {
        tr[0].spawned.len() + spawn_count::<E, T>(tr.drop_first())
    }
}

/// Every event the polls in the trace dispatched, in poll order, each
/// poll's events in dispatch order.
pub open spec fn events_of<E, T: Task<E>>(tr: Seq<PollRecord<T, E>>) -> Seq<E>
    decreases tr.len(),
{
    if tr.len() == 0 {
        Seq::<E>::empty()
    } else {
        tr[0].events + events_of::<E, T>(tr.drop_first())
    }
}

/// Whether the task type's transition relation admits only one outcome
/// per poll: the shape of tasks whose behaviour does not depend on
/// anything outside their own state.
pub open spec fn deterministic<E, T: Task<E>>() -> bool {
    forall|pre: T, n1: Option<T>, e1: Seq<E>, s1: Seq<T>, n2: Option<T>, e2: Seq<E>, s2: Seq<T>|
        #![trigger T::may_step(pre, n1, e1, s1), T::may_step(pre, n2, e2, s2)]
        T::may_step(pre, n1, e1, s1) && T::may_step(pre, n2, e2, s2) ==> n1 == n2 && e1 == e2
            && s1 == s2
}

proof fn lemma_replay_deterministic<E, T: Task<E>>(
    polled: Seq<T>,
    unpolled: Seq<T>,
    acc: Seq<E>,
    completed: bool,
    tr1: Seq<PollRecord<T, E>>,
    post_tasks1: Seq<T>,
    post_events1: Seq<E>,
    tr2: Seq<PollRecord<T, E>>,
    post_tasks2: Seq<T>,
    post_events2: Seq<E>,
)
    requires
        deterministic::<E, T>(),
        run_replay(polled, unpolled, acc, completed, tr1, post_tasks1, post_events1),
        run_replay(polled, unpolled, acc, completed, tr2, post_tasks2, post_events2),
    ensures
        tr1 == tr2,
        post_tasks1 == post_tasks2,
        post_events1 == post_events2,
    decreases tr1.len(), (if unpolled.len() == 0 { 1int } else { 0int }),
{
    if unpolled.len() == 0 {
        if polled.len() == 0 || !completed {
            assert(tr1 =~= tr2);
        } else {
            lemma_replay_deterministic(
                Seq::<T>::empty(),
                polled,
                acc,
                false,
                tr1,
                post_tasks1,
                post_events1,
                tr2,
                post_tasks2,
                post_events2,
            );
        }
    } else {
        let r1 = tr1[0];
        let r2 = tr2[0];
        assert(T::may_step(r1.pre, r1.next, r1.events, r1.spawned) && T::may_step(
            r2.pre,
            r2.next,
            r2.events,
            r2.spawned,
        ));
        assert(r1 == r2);
        let polled2 = match r1.next {
            Some(t) => polled.push(t),
            None => polled,
        };
        lemma_replay_deterministic(
            polled2,
            unpolled.drop_first() + r1.spawned,
            acc + r1.events,
            completed || r1.next is None,
            tr1.drop_first(),
            post_tasks1,
            post_events1,
            tr2.drop_first(),
            post_tasks2,
            post_events2,
        );
        assert forall|ix: int| 0 <= ix < tr1.len() implies tr1[ix] == tr2[ix] by {
            if ix > 0 {
                assert(tr1.drop_first()[ix - 1] == tr2.drop_first()[ix - 1]);
            }
        }
        assert(tr1 =~= tr2);
    }
}

/// For tasks with only one allowed outcome per poll, a run's result is a
/// function of the state it began in: any two traces that carry the same
/// start state to a stall are the same trace, ending in the same task set
/// and the same outbox. Poll order, event order and the surviving tasks
/// are reproducible, never an accident of scheduling.
pub proof fn lemma_run_deterministic<E, T: Task<E>>(
    pre_tasks: Seq<T>,
    pre_events: Seq<E>,
    tr1: Seq<PollRecord<T, E>>,
    post_tasks1: Seq<T>,
    post_events1: Seq<E>,
    tr2: Seq<PollRecord<T, E>>,
    post_tasks2: Seq<T>,
    post_events2: Seq<E>,
)
    requires
        deterministic::<E, T>(),
        valid_run(pre_tasks, pre_events, tr1, post_tasks1, post_events1),
        valid_run(pre_tasks, pre_events, tr2, post_tasks2, post_events2),
    ensures
        tr1 == tr2,
        post_tasks1 == post_tasks2,
        post_events1 == post_events2,
{
    lemma_replay_deterministic(
        Seq::<T>::empty(),
        pre_tasks,
        pre_events,
        false,
        tr1,
        post_tasks1,
        post_events1,
        tr2,
        post_tasks2,
        post_events2,
    );
}

proof fn lemma_replay_events<E, T: Task<E>>(
    polled: Seq<T>,
    unpolled: Seq<T>,
    acc: Seq<E>,
    completed: bool,
    tr: Seq<PollRecord<T, E>>,
    post_tasks: Seq<T>,
    post_events: Seq<E>,
)
    requires
        run_replay(polled, unpolled, acc, completed, tr, post_tasks, post_events),
    ensures
        post_events == acc + events_of::<E, T>(tr),
    decreases tr.len(), (if unpolled.len() == 0 { 1int } else { 0int }),
{
    if unpolled.len() == 0 {
        if polled.len() == 0 || !completed {
            assert(acc + events_of::<E, T>(tr) =~= acc);
        } else {
            lemma_replay_events(
                Seq::<T>::empty(),
                polled,
                acc,
                false,
                tr,
                post_tasks,
                post_events,
            );
        }
    } else {
        let r = tr[0];
        let polled2 = match r.next {
            Some(t) => polled.push(t),
            None => polled,
        };
        lemma_replay_events(
            polled2,
            unpolled.drop_first() + r.spawned,
            acc + r.events,
            completed || r.next is None,
            tr.drop_first(),
            post_tasks,
            post_events,
        );
        assert((acc + r.events) + events_of::<E, T>(tr.drop_first()) =~= acc + events_of::<E, T>(
            tr,
        ));
    }
}

proof fn lemma_replay_polls_prefix<E, T: Task<E>>(
    polled: Seq<T>,
    unpolled: Seq<T>,
    acc: Seq<E>,
    completed: bool,
    tr: Seq<PollRecord<T, E>>,
    post_tasks: Seq<T>,
    post_events: Seq<E>,
)
    requires
        run_replay(polled, unpolled, acc, completed, tr, post_tasks, post_events),
    ensures
        tr.len() >= unpolled.len(),
        forall|i: int| 0 <= i < unpolled.len() ==> #[trigger] tr[i].pre == unpolled[i],
    decreases tr.len(),
{
    if unpolled.len() > 0 {
        let r = tr[0];
        let polled2 = match r.next {
            Some(t) => polled.push(t),
            None => polled,
        };
        let unpolled2 = unpolled.drop_first() + r.spawned;
        lemma_replay_polls_prefix(
            polled2,
            unpolled2,
            acc + r.events,
            completed || r.next is None,
            tr.drop_first(),
            post_tasks,
            post_events,
        );
        assert forall|i: int| 0 <= i < unpolled.len() implies #[trigger] tr[i].pre
            == unpolled[i] by {
            if i > 0 {
                assert(tr.drop_first()[i - 1].pre == unpolled2[i - 1]);
                assert(unpolled2[i - 1] == unpolled[i]);
            }
        }
    }
}

/// Every task awaiting a poll is polled: a run's trace begins by polling
/// the tasks that were in flight when the run began, in spawn order.
pub proof fn lemma_every_pending_task_polled<E, T: Task<E>>(
    pre_tasks: Seq<T>,
    pre_events: Seq<E>,
    tr: Seq<PollRecord<T, E>>,
    post_tasks: Seq<T>,
    post_events: Seq<E>,
)
    requires
        valid_run(pre_tasks, pre_events, tr, post_tasks, post_events),
    ensures
        tr.len() >= pre_tasks.len(),
        forall|i: int| 0 <= i < pre_tasks.len() ==> #[trigger] tr[i].pre == pre_tasks[i],
{
    lemma_replay_polls_prefix(
        Seq::<T>::empty(),
        pre_tasks,
        pre_events,
        false,
        tr,
        post_tasks,
        post_events,
    );
}

proof fn lemma_replay_accounting<E, T: Task<E>>(
    polled: Seq<T>,
    unpolled: Seq<T>,
    acc: Seq<E>,
    completed: bool,
    tr: Seq<PollRecord<T, E>>,
    post_tasks: Seq<T>,
    post_events: Seq<E>,
)
    requires
        run_replay(polled, unpolled, acc, completed, tr, post_tasks, post_events),
    ensures
        post_tasks.len() + completions::<E, T>(tr) == polled.len() + unpolled.len()
            + spawn_count::<E, T>(tr),
    decreases tr.len(), (if unpolled.len() == 0 { 1int } else { 0int }),
{
    if unpolled.len() == 0 {
        if !(polled.len() == 0 || !completed) {
            lemma_replay_accounting(
                Seq::<T>::empty(),
                polled,
                acc,
                false,
                tr,
                post_tasks,
                post_events,
            );
        }
    } else {
        let r = tr[0];
        let polled2 = match r.next {
            Some(t) => polled.push(t),
            None => polled,
        };
        lemma_replay_accounting(
            polled2,
            unpolled.drop_first() + r.spawned,
            acc + r.events,
            completed || r.next is None,
            tr.drop_first(),
            post_tasks,
            post_events,
        );
    }
}

/// Completing a task shrinks the task set for good: over a whole run, the
/// tasks left at the stall plus the polls that completed account exactly
/// for the tasks the run began with plus the tasks spawned along the way.
/// In particular, with no spawns, each completion shrinks the set by one.
pub proof fn lemma_completions_shrink_task_set<E, T: Task<E>>(
    pre_tasks: Seq<T>,
    pre_events: Seq<E>,
    tr: Seq<PollRecord<T, E>>,
    post_tasks: Seq<T>,
    post_events: Seq<E>,
)
    requires
        valid_run(pre_tasks, pre_events, tr, post_tasks, post_events),
    ensures
        post_tasks.len() + completions::<E, T>(tr) == pre_tasks.len() + spawn_count::<E, T>(tr),
{
    lemma_replay_accounting(
        Seq::<T>::empty(),
        pre_tasks,
        pre_events,
        false,
        tr,
        post_tasks,
        post_events,
    );
}

proof fn lemma_replay_child<E, T: Task<E>>(
    polled: Seq<T>,
    unpolled: Seq<T>,
    acc: Seq<E>,
    completed: bool,
    tr: Seq<PollRecord<T, E>>,
    post_tasks: Seq<T>,
    post_events: Seq<E>,
    k: int,
    j: int,
)
    requires
        run_replay(polled, unpolled, acc, completed, tr, post_tasks, post_events),
        0 <= k < tr.len(),
        0 <= j < tr[k].spawned.len(),
    ensures
        exists|m: int| #![trigger tr[m]]
            k < m < tr.len() && tr[m].pre == tr[k].spawned[j],
    decreases tr.len(), (if unpolled.len() == 0 { 1int } else { 0int }),
{
    if unpolled.len() == 0 {
        if polled.len() == 0 || !completed {
            // The run is over here, so the remaining trace is empty,
            // contradicting the record at position k.
            assert(false);
        } else {
            lemma_replay_child(
                Seq::<T>::empty(),
                polled,
                acc,
                false,
                tr,
                post_tasks,
                post_events,
                k,
                j,
            );
        }
    } else {
        let r = tr[0];
        let tr2 = tr.drop_first();
        let polled2 = match r.next {
            Some(t) => polled.push(t),
            None => polled,
        };
        let unpolled2 = unpolled.drop_first() + r.spawned;
        let acc2 = acc + r.events;
        let completed2 = completed || r.next is None;
        if k == 0 {
            lemma_replay_polls_prefix(
                polled2,
                unpolled2,
                acc2,
                completed2,
                tr2,
                post_tasks,
                post_events,
            );
            let idx = unpolled.len() - 1 + j;
            assert(unpolled2[idx] == r.spawned[j]);
            assert(tr2[idx].pre == unpolled2[idx]);
            assert(tr[idx + 1] == tr2[idx]);
            assert(0 < idx + 1 < tr.len() && tr[idx + 1].pre == tr[k].spawned[j]);
        } else {
            assert(tr2[k - 1] == tr[k]);
            lemma_replay_child(
                polled2,
                unpolled2,
                acc2,
                completed2,
                tr2,
                post_tasks,
                post_events,
                k - 1,
                j,
            );
            let m0 = choose|m0: int| #![trigger tr2[m0]]
                k - 1 < m0 < tr2.len() && tr2[m0].pre == tr2[k - 1].spawned[j];
            assert(tr[m0 + 1] == tr2[m0]);
            assert(k < m0 + 1 < tr.len() && tr[m0 + 1].pre == tr[k].spawned[j]);
        }
    }
}

/// A task spawned during a run is polled during that same run: the child
/// at position `j` of the poll at position `k` of the trace shows up as
/// the polled task of a later record of the same trace. In particular a
/// child spawned before its parent suspends or completes is polled within
/// the same `run_until_stalled` call, not left for the next one.
pub proof fn lemma_spawned_child_polled<E, T: Task<E>>(
    pre_tasks: Seq<T>,
    pre_events: Seq<E>,
    tr: Seq<PollRecord<T, E>>,
    post_tasks: Seq<T>,
    post_events: Seq<E>,
    k: int,
    j: int,
)
    requires
        valid_run(pre_tasks, pre_events, tr, post_tasks, post_events),
        0 <= k < tr.len(),
        0 <= j < tr[k].spawned.len(),
    ensures
        exists|m: int| #![trigger tr[m]]
            k < m < tr.len() && tr[m].pre == tr[k].spawned[j],
{
    lemma_replay_child(
        Seq::<T>::empty(),
        pre_tasks,
        pre_events,
        false,
        tr,
        post_tasks,
        post_events,
        k,
        j,
    );
}

/// Dispatch order is kept across tasks and rounds: the events a stall-to-
/// stall run adds to the outbox are exactly the events its polls
/// dispatched, in poll order, and nothing already in the outbox moves.
pub proof fn lemma_events_in_poll_order<E, T: Task<E>>(
    pre_tasks: Seq<T>,
    pre_events: Seq<E>,
    tr: Seq<PollRecord<T, E>>,
    post_tasks: Seq<T>,
    post_events: Seq<E>,
)
    requires
        valid_run(pre_tasks, pre_events, tr, post_tasks, post_events),
    ensures
        post_events == pre_events + events_of::<E, T>(tr),
{
    lemma_replay_events(
        Seq::<T>::empty(),
        pre_tasks,
        pre_events,
        false,
        tr,
        post_tasks,
        post_events,
    );
}

} // verus!
