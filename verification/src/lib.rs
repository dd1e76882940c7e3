//! A cooperative single-threaded task scheduler.
//!
//! The scheduler owns a dynamic set of resumable tasks, an event outbox,
//! and a flag recording that the host is parked awaiting new work. A host
//! loop calls `run_until_stalled` once per iteration to drive every ready
//! task forward until none can make further progress, then drains the
//! events the tasks published and goes on with its own per-iteration work.
//!
//! Tasks are explicit resumable state machines: each poll consumes the
//! task's current state and yields either a successor state (the task
//! suspended) or nothing (the task completed), together with the events it
//! dispatched and the child tasks it spawned during that poll. All
//! cooperative tasks share one logical thread of control, so a task that
//! aborts abnormally is fatal to the whole scheduler instance; tasks are
//! expected to convert internal failures into dispatched events instead.

pub mod probe;
pub mod request;
pub mod task;
pub mod task_context;
pub mod trace;
pub mod websocket;
