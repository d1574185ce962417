//! The synchronization core of a small priority-preemptive kernel that never
//! masks interrupts.
//!
//! Everything here is a deterministic state machine over explicit state: the
//! [`schedule::Scheduler`] owns the task table, the tick counter and the sleep
//! queue, and every synchronization object takes the scheduler it acts on as
//! an argument. A blocking operation never waits inside the library. It
//! either completes or parks the running task and says so in its result; the
//! platform then performs the context switch and, once the task is chosen to
//! run again, completes the operation as its description says: by calling
//! its second half, or by calling it again.
//!
//! Interrupt handlers may call every `*_allow_isr` operation at any instant,
//! also while a task has a critical section of the same object open. The
//! [`sync::soft_lock::SoftLock`] then hands the handler a restricted accessor
//! that can only record its contribution, which the next full-access entrant
//! merges into the object's state.

pub mod queue;
pub mod task;
pub mod schedule;
pub mod sync;
pub mod uart;
