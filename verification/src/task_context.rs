//! The cooperative scheduler itself.
//!
//! A [`TaskContext`] owns three things: the set of in-flight tasks in
//! spawn order, the outbox of events the tasks have dispatched since the
//! last drain, and a flag recording that the host is parked awaiting new
//! work. The host loop calls [`TaskContext::run_until_stalled`] once per
//! iteration, then [`TaskContext::drain`]s the published events and does
//! its own work.

use crate::task::{lemma_seq_measure_add, lemma_seq_measure_singleton, quiescent, seq_measure, Task};
use crate::trace::{lemma_events_in_poll_order, run_replay, valid_run, PollRecord};
use vstd::prelude::*;

verus! {

/// The mathematical state of a scheduler: the tasks still in flight in
/// the order they will be polled, the events dispatched since the last
/// drain in dispatch order, and whether the host is parked awaiting new
/// work.
pub struct SchedulerView<T, E> {
    /// The in-flight tasks, in poll order.
    pub tasks: Seq<T>,
    /// The undrained events, in dispatch order.
    pub outbox: Seq<E>,
    /// Whether the host is parked: the last poll ran the task set down to
    /// nothing, and only a spawn can make the next poll do work.
    pub waiting: bool,
}

impl<T, E> SchedulerView<T, E> {
    /// The scheduler's structural invariant: the host is recorded as
    /// parked only while no task is in flight. A spawn both adds a task
    /// and clears the flag, so the two never disagree.
    pub open spec fn wf(self) -> bool {
        self.waiting ==> self.tasks.len() == 0
    }
}

/// A cooperative single-threaded task scheduler.
///
/// Tasks never run in parallel: exactly one task's code executes at any
/// instant, and a poll hands control back as soon as the task suspends or
/// completes. A task that aborts abnormally is fatal to the whole
/// scheduler instance, since every task shares one logical thread of
/// control; tasks should dispatch an event describing an internal failure
/// instead of aborting.
pub struct TaskContext<T, E> {
    tasks: Vec<T>,
    outbox: Vec<E>,
    waiting: bool,
}

impl<T, E> View for TaskContext<T, E> {
    type V = SchedulerView<T, E>;

    closed spec fn view(&self) -> SchedulerView<T, E> {
        SchedulerView { tasks: self.tasks@, outbox: self.outbox@, waiting: self.waiting }
    }
}

impl<T, E> TaskContext<T, E> {
    /// A scheduler with no tasks, no undrained events, and an unparked
    /// host.
    pub fn new() -> (r: Self)
        ensures
            r@.tasks == Seq::<T>::empty(),
            r@.outbox == Seq::<E>::empty(),
            !r@.waiting,
            r@.wf(),
    {
        TaskContext { tasks: Vec::new(), outbox: Vec::new(), waiting: false }
    }

    /// Add a task to the end of the poll order. If the host was parked
    /// awaiting new work, it no longer is: the next poll has something to
    /// do.
    pub fn spawn(&mut self, task: T)
        ensures
            final(self)@.tasks == old(self)@.tasks.push(task),
            final(self)@.outbox == old(self)@.outbox,
            !final(self)@.waiting,
            final(self)@.wf(),
    {
        self.tasks.push(task);
        self.waiting = false;
    }

    /// Append an event to the outbox. Dispatch order is preserved: the
    /// next drain returns events exactly in the order they were
    /// dispatched.
    pub fn dispatch(&mut self, event: E)
        ensures
            final(self)@.outbox == old(self)@.outbox.push(event),
            final(self)@.tasks == old(self)@.tasks,
            final(self)@.waiting == old(self)@.waiting,
            old(self)@.wf() ==> final(self)@.wf(),
    {
        self.outbox.push(event);
    }

    /// Swap the outbox for an empty one and return the previous contents:
    /// every event dispatched since the last drain, in dispatch order.
    /// Nothing is delivered twice and nothing is lost; draining an empty
    /// outbox returns an empty vector.
    pub fn drain(&mut self) -> (events: Vec<E>)
        ensures
            events@ == old(self)@.outbox,
            final(self)@.outbox == Seq::<E>::empty(),
            final(self)@.tasks == old(self)@.tasks,
            final(self)@.waiting == old(self)@.waiting,
            old(self)@.wf() ==> final(self)@.wf(),
    {
        let mut drained: Vec<E> = Vec::new();
        drained.append(&mut self.outbox);
        proof {
            assert(drained@ =~= old(self)@.outbox);
        }
        drained
    }

    /// How many tasks are still in flight.
    pub fn pending_tasks(&self) -> (n: usize)
        ensures
            n == self@.tasks.len(),
    {
        self.tasks.len()
    }

    /// Whether the host is parked awaiting new work: the last poll ran
    /// the task set down to nothing and no task has been spawned since.
    pub fn is_waiting(&self) -> (w: bool)
        ensures
            w == self@.waiting,
    {
        self.waiting
    }
}

impl<E, T: Task<E>> TaskContext<T, E> {
    /// Run every ready task to exhaustion, then return; never block the
    /// caller.
    ///
    /// Each poll round polls every in-flight task once, in order; a task
    /// that completes is dropped immediately, events it dispatched join
    /// the outbox in poll order, and children it spawned join the end of
    /// the same round. If a round completed at least one task and tasks
    /// remain, another round follows, since completing a task may have
    /// unblocked work; a round that completes nothing stalls the run. On
    /// return the host is parked exactly when the task set ran down to
    /// nothing.
    ///
    /// The contract pins the result down through [`valid_run`]: some
    /// trace of single-task polls, each allowed by the task's own
    /// transition relation and replayed under the discipline above,
    /// carries the old state to the new one. The laws in [`crate::trace`]
    /// then apply to that trace: every task pending at the call is polled
    /// at least once, a child spawned during the call is polled during
    /// the same call, and completions shrink the task set for good. When
    /// every pending task is quiescent the call changes nothing at all:
    /// re-polling a stalled scheduler does no work.
    #[verifier::loop_isolation(false)]
    pub fn run_until_stalled(&mut self)
        ensures
            final(self)@.waiting == (final(self)@.tasks.len() == 0),
            final(self)@.wf(),
            old(self)@.outbox.is_prefix_of(final(self)@.outbox),
            exists|tr: Seq<PollRecord<T, E>>|
                valid_run(
                    old(self)@.tasks,
                    old(self)@.outbox,
                    tr,
                    final(self)@.tasks,
                    final(self)@.outbox,
                ),
            (forall|ix: int|
                0 <= ix < old(self)@.tasks.len() ==> quiescent::<E, T>(old(self)@.tasks[ix]))
                ==> (final(self)@.tasks == old(self)@.tasks && final(self)@.outbox == old(
                self,
            )@.outbox),
    {
        let ghost pre_tasks = self.tasks@;
        let ghost pre_events = self.outbox@;
        let ghost all_q = forall|ix: int|
            0 <= ix < pre_tasks.len() ==> quiescent::<E, T>(pre_tasks[ix]);
        let ghost mut tr = Seq::<PollRecord<T, E>>::empty();
        proof {
            assert forall|tr2: Seq<PollRecord<T, E>>, pt: Seq<T>, pe: Seq<E>|
                run_replay(
                    Seq::<T>::empty(),
                    self.tasks@,
                    self.outbox@,
                    false,
                    tr2,
                    pt,
                    pe,
                ) implies run_replay(
                Seq::<T>::empty(),
                pre_tasks,
                pre_events,
                false,
                tr + tr2,
                pt,
                pe,
            ) by {
                assert(tr + tr2 =~= tr2);
            }
        }
        let mut stalled = false;
        while !stalled
            invariant
                all_q ==> self.tasks@ == pre_tasks && self.outbox@ == pre_events,
                !stalled ==> forall|tr2: Seq<PollRecord<T, E>>, pt: Seq<T>, pe: Seq<E>|
                    run_replay(
                        Seq::<T>::empty(),
                        self.tasks@,
                        self.outbox@,
                        false,
                        tr2,
                        pt,
                        pe,
                    ) ==> run_replay(
                        Seq::<T>::empty(),
                        pre_tasks,
                        pre_events,
                        false,
                        tr + tr2,
                        pt,
                        pe,
                    ),
                stalled ==> valid_run(pre_tasks, pre_events, tr, self.tasks@, self.outbox@),
            decreases seq_measure::<T>(self.tasks@), (if stalled { 0int } else { 1int }),
        {
            let ghost round_start = seq_measure::<T>(self.tasks@);
            let mut completed = false;
            let mut i: usize = 0;
            proof {
                assert(self.tasks@.take(0) =~= Seq::<T>::empty());
                assert(self.tasks@.skip(0) =~= self.tasks@);
            }
            while i < self.tasks.len()
                invariant
                    i <= self.tasks.len(),
                    seq_measure::<T>(self.tasks@) <= round_start,
                    completed ==> seq_measure::<T>(self.tasks@) < round_start,
                    all_q ==> self.tasks@ == pre_tasks && self.outbox@ == pre_events
                        && !completed,
                    forall|tr2: Seq<PollRecord<T, E>>, pt: Seq<T>, pe: Seq<E>|
                        run_replay(
                            self.tasks@.take(i as int),
                            self.tasks@.skip(i as int),
                            self.outbox@,
                            completed,
                            tr2,
                            pt,
                            pe,
                        ) ==> run_replay(
                            Seq::<T>::empty(),
                            pre_tasks,
                            pre_events,
                            false,
                            tr + tr2,
                            pt,
                            pe,
                        ),
                decreases seq_measure::<T>(self.tasks@.skip(i as int)), self.tasks@.len() - i,
            {
                let ghost i0 = i as int;
                let ghost tasks0 = self.tasks@;
                let ghost out0 = self.outbox@;
                let ghost completed0 = completed;
                let ghost tr0 = tr;
                let ghost p_old = tasks0.take(i0);
                let ghost u_old = tasks0.skip(i0);

                let t = self.tasks.remove(i);
                let ghost t_snap = t;
                let mut r = t.step();
                let ghost rec = PollRecord {
                    pre: t_snap,
                    next: r.next,
                    events: r.events@,
                    spawned: r.spawned@,
                };
                proof {
                    assert(T::may_step(rec.pre, rec.next, rec.events, rec.spawned));
                    T::step_progress(rec.pre, rec.next, rec.events, rec.spawned);
                    assert(rec.pre == u_old[0]);
                    // decompose the measures of the old task list
                    assert(tasks0 =~= p_old + u_old);
                    lemma_seq_measure_add::<T>(p_old, u_old);
                    assert(u_old =~= seq![rec.pre] + u_old.drop_first());
                    lemma_seq_measure_add::<T>(seq![rec.pre], u_old.drop_first());
                    lemma_seq_measure_singleton::<T>(rec.pre);
                }
                self.outbox.append(&mut r.events);
                self.tasks.append(&mut r.spawned);
                match r.next {
                    Some(t2) => {
                        self.tasks.insert(i, t2);
                        i = i + 1;
                        proof {
                            assert(self.tasks@ =~= p_old + seq![t2] + (u_old.drop_first()
                                + rec.spawned));
                            assert(self.tasks@.take(i as int) =~= p_old.push(t2));
                            assert(self.tasks@.skip(i as int) =~= u_old.drop_first()
                                + rec.spawned);
                            lemma_seq_measure_add::<T>(p_old + seq![t2], u_old.drop_first()
                                + rec.spawned);
                            lemma_seq_measure_add::<T>(p_old, seq![t2]);
                            lemma_seq_measure_singleton::<T>(t2);
                            lemma_seq_measure_add::<T>(u_old.drop_first(), rec.spawned);
                        }
                    },
                    None => {
                        completed = true;
                        proof {
                            assert(self.tasks@ =~= p_old + (u_old.drop_first() + rec.spawned));
                            assert(self.tasks@.take(i as int) =~= p_old);
                            assert(self.tasks@.skip(i as int) =~= u_old.drop_first()
                                + rec.spawned);
                            lemma_seq_measure_add::<T>(p_old, u_old.drop_first() + rec.spawned);
                            lemma_seq_measure_add::<T>(u_old.drop_first(), rec.spawned);
                        }
                    },
                }
                proof {
                    tr = tr0 + seq![rec];
                    assert(self.outbox@ == out0 + rec.events);
                    assert(completed == (completed0 || rec.next is None));
                    assert(seq_measure::<T>(self.tasks@.skip(i as int)) <= seq_measure::<T>(
                        u_old.drop_first(),
                    ) + seq_measure::<T>(rec.spawned));
                    assert forall|tr2: Seq<PollRecord<T, E>>, pt: Seq<T>, pe: Seq<E>|
                        run_replay(
                            self.tasks@.take(i as int),
                            self.tasks@.skip(i as int),
                            self.outbox@,
                            completed,
                            tr2,
                            pt,
                            pe,
                        ) implies run_replay(
                        Seq::<T>::empty(),
                        pre_tasks,
                        pre_events,
                        false,
                        tr + tr2,
                        pt,
                        pe,
                    ) by {
                        assert((seq![rec] + tr2)[0] == rec);
                        assert((seq![rec] + tr2).drop_first() =~= tr2);
                        assert(run_replay(p_old, u_old, out0, completed0, seq![rec] + tr2, pt, pe));
                        assert(run_replay(
                            Seq::<T>::empty(),
                            pre_tasks,
                            pre_events,
                            false,
                            tr0 + (seq![rec] + tr2),
                            pt,
                            pe,
                        ));
                        assert(tr0 + (seq![rec] + tr2) =~= tr + tr2);
                    }
                    if all_q {
                        assert(quiescent::<E, T>(pre_tasks[i0]));
                        assert(rec.next == Some(rec.pre) && rec.events.len() == 0
                            && rec.spawned.len() == 0);
                        assert(self.tasks@ =~= tasks0);
                        assert(self.outbox@ =~= out0);
                    }
                }
            }
            proof {
                assert(self.tasks@.take(i as int) =~= self.tasks@);
                assert(self.tasks@.skip(i as int) =~= Seq::<T>::empty());
            }
            if self.tasks.len() == 0 || !completed {
                stalled = true;
                proof {
                    assert(run_replay(
                        self.tasks@,
                        Seq::<T>::empty(),
                        self.outbox@,
                        completed,
                        Seq::<PollRecord<T, E>>::empty(),
                        self.tasks@,
                        self.outbox@,
                    ));
                    assert(tr + Seq::<PollRecord<T, E>>::empty() =~= tr);
                    assert(valid_run(pre_tasks, pre_events, tr, self.tasks@, self.outbox@));
                }
            } else {
                proof {
                    assert forall|tr2: Seq<PollRecord<T, E>>, pt: Seq<T>, pe: Seq<E>|
                        run_replay(
                            Seq::<T>::empty(),
                            self.tasks@,
                            self.outbox@,
                            false,
                            tr2,
                            pt,
                            pe,
                        ) implies run_replay(
                        Seq::<T>::empty(),
                        pre_tasks,
                        pre_events,
                        false,
                        tr + tr2,
                        pt,
                        pe,
                    ) by {
                        assert(run_replay(
                            self.tasks@,
                            Seq::<T>::empty(),
                            self.outbox@,
                            true,
                            tr2,
                            pt,
                            pe,
                        ));
                    }
                }
            }
        }
        proof {
            lemma_events_in_poll_order::<E, T>(
                pre_tasks,
                pre_events,
                tr,
                self.tasks@,
                self.outbox@,
            );
            assert(pre_events.is_prefix_of(self.outbox@)) by {
                assert(self.outbox@.subrange(0, pre_events.len() as int) =~= pre_events);
            }
        }
        let stalled_empty = self.tasks.len() == 0;
        self.waiting = stalled_empty;
        proof {
            assert(valid_run(old(self)@.tasks, old(self)@.outbox, tr, self@.tasks, self@.outbox));
        }
    }
}

/// The outbox after a sequence of dispatch calls, one push per call, in
/// call order.
pub open spec fn dispatch_all<E>(outbox: Seq<E>, events: Seq<E>) -> Seq<E>
    decreases events.len(),
{
    if events.len() == 0 {
        outbox
    } else {
        dispatch_all(outbox.push(events[0]), events.drop_first())
    }
}

/// No event is delivered twice and none is lost: after any sequence of
/// dispatch calls, the outbox holds exactly what it held before followed
/// by the dispatched events in call order — so the next drain returns
/// precisely those events, and a second immediate drain returns nothing.
pub proof fn lemma_no_double_delivery<E>(outbox: Seq<E>, events: Seq<E>)
    ensures
        dispatch_all(outbox, events) == outbox + events,
    decreases events.len(),
{
    if events.len() == 0 {
        assert(outbox + events =~= outbox);
    } else {
        lemma_no_double_delivery(outbox.push(events[0]), events.drop_first());
        assert(outbox.push(events[0]) + events.drop_first() =~= outbox + events);
    }
}

impl<T, E> Default for TaskContext<T, E> {
    /// The same scheduler [`TaskContext::new`] returns.
    fn default() -> (r: Self)
        ensures
            r@.tasks == Seq::<T>::empty(),
            r@.outbox == Seq::<E>::empty(),
            !r@.waiting,
            r@.wf(),
    {
        TaskContext::new()
    }
}

} // verus!
