use quicksilver_utils_async::probe::ProbeTask;
use quicksilver_utils_async::task_context::TaskContext;

fn sched() -> TaskContext<ProbeTask<String>, String> {
    TaskContext::new()
}

fn s(text: &str) -> String {
    text.to_string()
}

#[test]
fn no_double_delivery() {
    let mut ctx = sched();
    ctx.dispatch(s("a"));
    ctx.dispatch(s("b"));
    ctx.dispatch(s("c"));
    let drained = ctx.drain();
    assert_eq!(drained, vec![s("a"), s("b"), s("c")]);
    let again = ctx.drain();
    assert!(again.is_empty());
}

#[test]
fn drain_on_empty_outbox_returns_empty() {
    let mut ctx = sched();
    assert!(ctx.drain().is_empty());
}

#[test]
fn drain_separates_batches() {
    let mut ctx = sched();
    ctx.dispatch(s("first"));
    assert_eq!(ctx.drain(), vec![s("first")]);
    ctx.dispatch(s("second"));
    ctx.dispatch(s("third"));
    assert_eq!(ctx.drain(), vec![s("second"), s("third")]);
}

#[test]
fn tick_once_scenario() {
    let mut ctx = sched();
    ctx.spawn(ProbeTask::EmitThenIdle(s("Tick")));
    ctx.spawn(ProbeTask::EmitOnce(s("Once")));
    ctx.run_until_stalled();
    // Poll order is spawn order, so the sleeper's event comes first.
    assert_eq!(ctx.drain(), vec![s("Tick"), s("Once")]);
    // The one-shot task completed; the sleeper is still parked.
    assert_eq!(ctx.pending_tasks(), 1);
    assert!(!ctx.is_waiting());
    // Before the sleeper is woken, another poll does no work at all.
    ctx.run_until_stalled();
    assert!(ctx.drain().is_empty());
    assert_eq!(ctx.pending_tasks(), 1);
}

#[test]
fn task_spawned_before_run_is_polled() {
    let mut ctx = sched();
    ctx.spawn(ProbeTask::EmitOnce(s("ran")));
    ctx.run_until_stalled();
    assert_eq!(ctx.drain(), vec![s("ran")]);
}

#[test]
fn task_spawned_after_stall_is_polled_on_next_run() {
    let mut ctx = sched();
    ctx.run_until_stalled();
    assert!(ctx.is_waiting());
    ctx.spawn(ProbeTask::EmitOnce(s("late")));
    assert!(!ctx.is_waiting());
    ctx.run_until_stalled();
    assert_eq!(ctx.drain(), vec![s("late")]);
}

#[test]
fn stall_is_idempotent() {
    let mut ctx = sched();
    ctx.spawn(ProbeTask::EmitThenIdle(s("once only")));
    ctx.spawn(ProbeTask::Idle);
    ctx.run_until_stalled();
    assert_eq!(ctx.drain(), vec![s("once only")]);
    for _ in 0..3 {
        ctx.run_until_stalled();
        assert!(ctx.drain().is_empty());
        assert_eq!(ctx.pending_tasks(), 2);
    }
}

#[test]
fn completion_shrinks_task_set() {
    let mut ctx = sched();
    ctx.spawn(ProbeTask::EmitOnce(s("one")));
    ctx.spawn(ProbeTask::Idle);
    ctx.spawn(ProbeTask::EmitOnce(s("two")));
    assert_eq!(ctx.pending_tasks(), 3);
    ctx.run_until_stalled();
    assert_eq!(ctx.pending_tasks(), 1);
    assert_eq!(ctx.drain(), vec![s("one"), s("two")]);
    // Completed tasks are gone for good: nothing reruns them.
    ctx.run_until_stalled();
    assert_eq!(ctx.pending_tasks(), 1);
    assert!(ctx.drain().is_empty());
}

#[test]
fn child_spawned_during_run_is_polled_in_same_run() {
    let mut ctx = sched();
    ctx.spawn(ProbeTask::SpawnThenDone(Box::new(ProbeTask::EmitOnce(s("child")))));
    ctx.run_until_stalled();
    assert_eq!(ctx.drain(), vec![s("child")]);
    assert_eq!(ctx.pending_tasks(), 0);
    assert!(ctx.is_waiting());
}

#[test]
fn grandchild_is_polled_in_same_run() {
    let mut ctx = sched();
    let grandchild = ProbeTask::EmitOnce(s("grand"));
    let child = ProbeTask::SpawnThenDone(Box::new(grandchild));
    ctx.spawn(ProbeTask::SpawnThenDone(Box::new(child)));
    ctx.run_until_stalled();
    assert_eq!(ctx.drain(), vec![s("grand")]);
    assert_eq!(ctx.pending_tasks(), 0);
}

#[test]
fn child_joins_round_after_parked_sibling() {
    let mut ctx = sched();
    ctx.spawn(ProbeTask::SpawnThenDone(Box::new(ProbeTask::EmitOnce(s("kid")))));
    ctx.spawn(ProbeTask::Idle);
    ctx.run_until_stalled();
    assert_eq!(ctx.drain(), vec![s("kid")]);
    assert_eq!(ctx.pending_tasks(), 1);
}

#[test]
fn run_on_empty_set_parks_host() {
    let mut ctx = sched();
    assert!(!ctx.is_waiting());
    ctx.run_until_stalled();
    assert!(ctx.is_waiting());
    assert_eq!(ctx.pending_tasks(), 0);
    ctx.spawn(ProbeTask::Idle);
    assert!(!ctx.is_waiting());
}

#[test]
fn host_dispatch_interleaves_with_task_events() {
    let mut ctx = sched();
    ctx.dispatch(s("host before"));
    ctx.spawn(ProbeTask::EmitOnce(s("task")));
    ctx.run_until_stalled();
    assert_eq!(ctx.drain(), vec![s("host before"), s("task")]);
}

#[test]
fn default_is_fresh() {
    let mut ctx: TaskContext<ProbeTask<String>, String> = TaskContext::default();
    assert_eq!(ctx.pending_tasks(), 0);
    assert!(!ctx.is_waiting());
    assert!(ctx.drain().is_empty());
}
