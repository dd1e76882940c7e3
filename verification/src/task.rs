//! The interface between the scheduler and the units of work it runs.
//!
//! A task is an explicit resumable state machine. Polling a task consumes
//! its current state and produces a [`StepResult`]: the successor state
//! (`None` when the task ran to completion), the events the task
//! dispatched during the poll, and the child tasks it spawned, each in
//! call order.

use vstd::prelude::*;

verus! {

/// Everything one poll of a task produced.
pub struct StepResult<T, E> {
    /// The task's state after the poll; `None` means the task completed
    /// and must never be polled again.
    pub next: Option<T>,
    /// The events the task dispatched during the poll, in call order.
    pub events: Vec<E>,
    /// The child tasks the task spawned during the poll, in call order.
    pub spawned: Vec<T>,
}

/// A type whose values carry a bound on the cooperative work they can
/// still do. The bound exists only in specifications; nothing computes it
/// at run time.
pub trait Measured: Sized {
    /// An upper bound on how much more this value, together with every
    /// task it transitively spawns, can do before it has to complete or
    /// park itself awaiting an external wake.
    spec fn measure(self) -> nat;
}

/// A unit of cooperative, suspendable work that dispatches events of type
/// `E` and may spawn further tasks of its own type.
///
/// Besides the executable [`step`](Task::step), an implementation gives a
/// specification-level transition relation [`may_step`](Task::may_step)
/// saying which outcomes a poll may produce, and a [`measure`](Measured::measure)
/// bounding the work the task can still do before it must either complete
/// or suspend without progress. The [`step_progress`](Task::step_progress)
/// obligation rules out tasks that busy-loop forever without suspending:
/// such a task would starve the host loop, which the scheduler treats as a
/// caller contract violation rather than a recoverable error.
pub trait Task<E>: Measured {
    /// The single-poll transition relation: `pre` is the state the task is
    /// polled in, the remaining arguments describe one outcome the poll is
    /// allowed to produce.
    spec fn may_step(pre: Self, next: Option<Self>, events: Seq<E>, spawned: Seq<Self>) -> bool;

    /// The law every task obeys: a poll either parks the task exactly as
    /// it was, with no events and no children, or it strictly shrinks the
    /// combined measure of what the poll leaves behind.
    proof fn step_progress(pre: Self, next: Option<Self>, events: Seq<E>, spawned: Seq<Self>)
        requires
            Self::may_step(pre, next, events, spawned),
        ensures
            (next == Some(pre) && events.len() == 0 && spawned.len() == 0)
                || opt_measure::<Self>(next) + seq_measure::<Self>(spawned)
                    < pre.measure(),
    ;

    /// Poll the task once, advancing it as far as it can go without
    /// blocking.
    fn step(self) -> (r: StepResult<Self, E>)
        ensures
            Self::may_step(self, r.next, r.events@, r.spawned@),
    ;
}

/// The measure of an optional successor state; a completed task has
/// nothing left to do.
pub open spec fn opt_measure<T: Measured>(next: Option<T>) -> nat {
    match next {
        Some(t) => t.measure(),
        None => 0,
    }
}

/// The combined measure of a sequence of tasks.
pub open spec fn seq_measure<T: Measured>(s: Seq<T>) -> nat
    decreases s.len(),
{
    if s.len() == 0 {
        0
    } else {
        s[0].measure() + seq_measure::<T>(s.drop_first())
    }
}

/// A task is quiescent when polling it cannot do anything: every outcome
/// it is allowed to produce leaves it exactly as it was, with no events
/// and no children. A quiescent task is waiting for an external wake.
pub open spec fn quiescent<E, T: Task<E>>(t: T) -> bool {
    forall|next: Option<T>, events: Seq<E>, spawned: Seq<T>|
        #[trigger] T::may_step(t, next, events, spawned) ==> next == Some(t) && events.len() == 0
            && spawned.len() == 0
}

/// A task whose measure is spent can only be quiescent: with no work
/// budget left, every poll must park it unchanged.
pub proof fn lemma_zero_measure_quiescent<E, T: Task<E>>(t: T)
    requires
        t.measure() == 0,
    ensures
        quiescent::<E, T>(t),
{
    assert forall|next: Option<T>, events: Seq<E>, spawned: Seq<T>|
        #[trigger] T::may_step(t, next, events, spawned) implies next == Some(t) && events.len()
        == 0 && spawned.len() == 0 by {
        T::step_progress(t, next, events, spawned);
    }
}

/// The combined measure of concatenated task sequences is the sum of the
/// parts.
pub proof fn lemma_seq_measure_add<T: Measured>(a: Seq<T>, b: Seq<T>)
    ensures
        seq_measure::<T>(a + b) == seq_measure::<T>(a) + seq_measure::<T>(b),
    decreases a.len(),
{
    if a.len() == 0 {
        assert(a + b =~= b);
    } else {
        assert((a + b).drop_first() =~= a.drop_first() + b);
        lemma_seq_measure_add::<T>(a.drop_first(), b);
    }
}

/// The combined measure of a singleton sequence is the one task's measure.
pub proof fn lemma_seq_measure_singleton<T: Measured>(t: T)
    ensures
        seq_measure::<T>(seq![t]) == t.measure(),
{
    assert(seq![t].drop_first() =~= Seq::<T>::empty());
    assert(seq_measure::<T>(Seq::<T>::empty()) == 0);
    assert(seq![t][0] == t);
}

} // verus!
