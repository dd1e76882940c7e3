//! Ready-made tasks with fully specified behaviour.
//!
//! These small state machines cover the shapes of work a scheduler deals
//! with — complete at once, dispatch then park, park forever, spawn a
//! child — and are handy both as building blocks and for exercising a
//! [`crate::task_context::TaskContext`] from code that cannot write its
//! own verified task type.

use crate::task::{opt_measure, quiescent, seq_measure, Measured, StepResult, Task};
use crate::trace::deterministic;
use vstd::prelude::*;

verus! {

/// A task whose whole behaviour is fixed by its constructor.
pub enum ProbeTask<E> {
    /// Dispatch the event, then complete.
    EmitOnce(E),
    /// Dispatch the event, then park forever awaiting an external wake
    /// that this scheduler cannot deliver — the shape of a periodic task
    /// that has just gone to sleep on its timer.
    EmitThenIdle(E),
    /// Do nothing, forever: a task parked on an external wake (a timer, an
    /// inbound message) from the moment it is spawned.
    Idle,
    /// Spawn the child task, then complete.
    SpawnThenDone(Box<ProbeTask<E>>),
}

impl<E> Measured for ProbeTask<E> {
    open spec fn measure(self) -> nat
        decreases self,
    {
        match self {
            ProbeTask::EmitOnce(_) => 1,
            ProbeTask::EmitThenIdle(_) => 1,
            ProbeTask::Idle => 0,
            ProbeTask::SpawnThenDone(child) => (*child).measure() + 1,
        }
    }
}

impl<E> Task<E> for ProbeTask<E> {
    open spec fn may_step(
        pre: Self,
        next: Option<Self>,
        events: Seq<E>,
        spawned: Seq<Self>,
    ) -> bool {
        match pre {
            ProbeTask::EmitOnce(e) => next is None && events == seq![e] && spawned == Seq::<
                Self,
            >::empty(),
            ProbeTask::EmitThenIdle(e) => next == Some(ProbeTask::<E>::Idle) && events == seq![e]
                && spawned == Seq::<Self>::empty(),
            ProbeTask::Idle => next == Some(ProbeTask::<E>::Idle) && events == Seq::<E>::empty()
                && spawned == Seq::<Self>::empty(),
            ProbeTask::SpawnThenDone(child) => next is None && events == Seq::<E>::empty()
                && spawned == seq![*child],
        }
    }

    proof fn step_progress(pre: Self, next: Option<Self>, events: Seq<E>, spawned: Seq<Self>) {
        match pre {
            ProbeTask::EmitOnce(_) => {
                assert(seq_measure::<Self>(spawned) == 0);
            },
            ProbeTask::EmitThenIdle(_) => {
                assert(seq_measure::<Self>(spawned) == 0);
                assert(opt_measure::<Self>(next) == 0);
            },
            ProbeTask::Idle => {
            },
            ProbeTask::SpawnThenDone(child) => {
                crate::task::lemma_seq_measure_singleton::<Self>(*child);
                assert(opt_measure::<Self>(next) == 0);
            },
        }
    }

    fn step(self) -> (r: StepResult<Self, E>) {
        match self {
            ProbeTask::EmitOnce(e) => {
                let ghost e_snap = e;
                let mut events: Vec<E> = Vec::new();
                events.push(e);
                let r = StepResult { next: None, events, spawned: Vec::new() };
                proof {
                    assert(r.events@ =~= seq![e_snap]);
                    assert(r.spawned@ =~= Seq::<Self>::empty());
                }
                r
            },
            ProbeTask::EmitThenIdle(e) => {
                let ghost e_snap = e;
                let mut events: Vec<E> = Vec::new();
                events.push(e);
                let r = StepResult {
                    next: Some(ProbeTask::Idle),
                    events,
                    spawned: Vec::new(),
                };
                proof {
                    assert(r.events@ =~= seq![e_snap]);
                    assert(r.spawned@ =~= Seq::<Self>::empty());
                }
                r
            },
            ProbeTask::Idle => {
                let r = StepResult {
                    next: Some(ProbeTask::Idle),
                    events: Vec::new(),
                    spawned: Vec::new(),
                };
                proof {
                    assert(r.events@ =~= Seq::<E>::empty());
                    assert(r.spawned@ =~= Seq::<Self>::empty());
                }
                r
            },
            ProbeTask::SpawnThenDone(child) => {
                let ghost child_snap = *child;
                let mut spawned: Vec<Self> = Vec::new();
                spawned.push(*child);
                let r = StepResult { next: None, events: Vec::new(), spawned };
                proof {
                    assert(r.events@ =~= Seq::<E>::empty());
                    assert(r.spawned@ =~= seq![child_snap]);
                }
                r
            },
        }
    }
}

/// A parked [`ProbeTask::Idle`] can never do anything: polling it again
/// is free of effects, so a scheduler holding only parked tasks stalls
/// without doing work.
pub proof fn lemma_idle_quiescent<E>()
    ensures
        quiescent::<E, ProbeTask<E>>(ProbeTask::Idle),
{
    assert forall|next: Option<ProbeTask<E>>, events: Seq<E>, spawned: Seq<ProbeTask<E>>|
        #[trigger] <ProbeTask<E> as Task<E>>::may_step(
            ProbeTask::Idle,
            next,
            events,
            spawned,
        ) implies next == Some(ProbeTask::<E>::Idle) && events.len() == 0 && spawned.len()
        == 0 by {}
}

/// Every probe task allows exactly one outcome per poll, so a run over
/// probe tasks has exactly one possible trace and one possible result.
pub proof fn lemma_probe_deterministic<E>()
    ensures
        deterministic::<E, ProbeTask<E>>(),
{
}

} // verus!
