//! The soft lock: full access for one context at a time, and for whoever
//! preempts it a restricted access that cannot block.
//!
//! A soft lock owns the state of one synchronization object. A context that
//! finds the lock free opens a critical section and gets the whole state. A
//! context that arrives while the section is open has preempted its holder,
//! so making it wait would hang the machine. It gets the pend-only part of
//! the state instead, on which it can only record what it came to do. The
//! next context that opens a section merges what was recorded before it
//! looks at the state.
//!
//! Between opening and closing a section the holder runs one short piece of
//! code on the state. To everyone else that piece is a single step: an
//! interrupt that arrives in the middle of the section sees the lock open and
//! touches nothing but the pend-only part.

use vstd::prelude::*;
use crate::schedule::{Scheduler, SchedulerView};

verus! {

/// State that can live in a [`SoftLock`]: it sets apart the part that a
/// preempting context may touch, and knows how to merge what was recorded
/// there.
pub trait AllowPendOp: View {
    /// The restricted accessor: the part of the state on which every
    /// operation is safe while another context is in the middle of a
    /// critical section.
    type PendOnlyAccessor: View;

    /// The invariant of the state.
    spec fn inv(v: Self::V) -> bool;

    /// What the restricted accessor shows of the state.
    spec fn pend_part(v: Self::V) -> <Self::PendOnlyAccessor as View>::V;

    /// The state with the pend-only part replaced.
    spec fn with_pend(v: Self::V, p: <Self::PendOnlyAccessor as View>::V) -> Self::V;

    /// State and scheduler after everything recorded in the pend-only part
    /// was merged.
    spec fn merged(v: Self::V, s: SchedulerView) -> (Self::V, SchedulerView);

    /// Lends the pend-only part.
    fn pend_only_access(&mut self) -> (p: &mut Self::PendOnlyAccessor)
        ensures
            p@ == Self::pend_part(old(self)@),
            final(self)@ == Self::with_pend(old(self)@, final(p)@),
    ;

    /// Merges what preempting contexts have recorded into the state proper,
    /// and acts on what follows from it, such as waking a parked task.
    /// Called by a context that has full access.
    fn run_pended_op(&mut self, sched: &mut Scheduler)
        requires
            Self::inv(old(self)@),
            old(sched).wf(),
        ensures
            Self::inv(final(self)@),
            final(sched).wf(),
            (final(self)@, final(sched)@) == Self::merged(old(self)@, old(sched)@),
            final(sched)@.suspended == old(sched)@.suspended,
            final(sched)@.isr_depth == old(sched)@.isr_depth,
    ;
}

/// A counter of events that preempting contexts have recorded. Posting is
/// all that a holder of restricted access can do with it.
pub struct PendingCount {
    n: usize,
}

impl View for PendingCount {
    type V = nat;

    closed spec fn view(&self) -> nat {
        self.n as nat
    }
}

/// `n + 1`, but never beyond the largest `usize`.
pub open spec fn bumped(n: nat) -> nat {
    if n < usize::MAX {
        n + 1
    } else {
        n
    }
}

/// `a + b`, but never beyond the largest `usize`.
pub open spec fn capped_sum(a: nat, b: nat) -> nat {
    if a + b <= usize::MAX {
        a + b
    } else {
        usize::MAX as nat
    }
}

impl PendingCount {
    /// A counter at zero.
    pub fn new() -> (c: PendingCount)
        ensures
            c@ == 0,
    {
        PendingCount { n: 0 }
    }

    /// Records one event. The counter stops at the largest `usize`.
    pub fn post(&mut self)
        ensures
            final(self)@ == bumped(old(self)@),
    {
        if self.n < usize::MAX {
            self.n = self.n + 1;
        }
    }

    /// Number of events recorded and not yet merged.
    pub fn get(&self) -> (n: usize)
        ensures
            n == self@,
    {
        self.n
    }

    /// Reads the counter and resets it to zero in one step, so that an event
    /// posted in the meantime is counted by the next merge and not lost.
    pub(crate) fn take(&mut self) -> (n: usize)
        ensures
            n == old(self)@,
            final(self)@ == 0,
    {
        let n = self.n;
        self.n = 0;
        n
    }
}

/// The pend-only part of a state on which a preempting context has nothing
/// to record.
pub struct NoPendingOp {}

impl View for NoPendingOp {
    type V = ();

    open spec fn view(&self) -> () {
        ()
    }
}

/// A soft lock as contracts speak of it.
pub struct SoftLockView<V> {
    /// Whether a critical section with full access is open.
    pub open: bool,
    /// The state that the lock owns.
    pub content: V,
}

/// The access that a context was granted.
pub enum Access<'a, T: AllowPendOp> {
    /// The critical section was free and is now open for the caller, who
    /// sees the state with everything merged and must call
    /// [`SoftLock::release`] when done.
    Full { full_access: &'a mut T },
    /// Another context is in the middle of a critical section. The caller
    /// may record its contribution and must not wait.
    PendOnly { pend_access: &'a mut T::PendOnlyAccessor },
}

/// Owner of the state of one synchronization object, see the module
/// description.
pub struct SoftLock<T: AllowPendOp> {
    content: T,
    locked: bool,
}

impl<T: AllowPendOp> View for SoftLock<T> {
    type V = SoftLockView<T::V>;

    closed spec fn view(&self) -> SoftLockView<T::V> {
        SoftLockView { open: self.locked, content: self.content@ }
    }
}

impl<T: AllowPendOp> SoftLock<T> {
    /// The state that the lock owns satisfies its invariant.
    pub open spec fn wf(&self) -> bool {
        T::inv(self@.content)
    }

    /// A free lock that owns `content`.
    pub fn new(content: T) -> (lock: SoftLock<T>)
        ensures
            lock@ == (SoftLockView { open: false, content: content@ }),
    {
        SoftLock { content, locked: false }
    }

    /// Whether a critical section is open.
    pub fn is_open(&self) -> (b: bool)
        ensures
            b == self@.open,
    {
        self.locked
    }

    /// The state, to look at. What a preempting context has recorded and
    /// nobody has merged yet is not in the state proper.
    pub fn peek(&self) -> (content: &T)
        ensures
            content@ == self@.content,
    {
        &self.content
    }

    /// Grants full access if the critical section is free, pend-only access
    /// if it is open. Never waits. May be called by a task and by an
    /// interrupt handler.
    ///
    /// With full access the scheduler is kept from switching tasks, and what
    /// was recorded earlier is merged before the caller sees the state.
    pub fn with_access<'a>(&'a mut self, sched: &mut Scheduler) -> (access: Access<'a, T>)
        requires
            old(self).wf(),
            old(sched).wf(),
            old(sched)@.suspended < usize::MAX,
        ensures
            final(sched).wf(),
            final(self)@.open,
            final(sched)@.isr_depth == old(sched)@.isr_depth,
            match access {
                Access::Full { full_access } => {
                    &&& !old(self)@.open
                    &&& final(sched)@.suspended == old(sched)@.suspended + 1
                    &&& (full_access@, final(sched)@) == T::merged(
                        old(self)@.content,
                        SchedulerView { suspended: old(sched)@.suspended + 1, ..old(sched)@ },
                    )
                    &&& T::inv(full_access@)
                    &&& final(self)@.content == final(full_access)@
                },
                Access::PendOnly { pend_access } => {
                    &&& old(self)@.open
                    &&& final(sched)@ == old(sched)@
                    &&& pend_access@ == T::pend_part(old(self)@.content)
                    &&& final(self)@.content == T::with_pend(old(self)@.content, final(pend_access)@)
                },
            },
    {
        if self.locked {
            Access::PendOnly { pend_access: self.content.pend_only_access() }
        } else {
            self.locked = true;
            sched.suspend();
            self.content.run_pended_op(sched);
            Access::Full { full_access: &mut self.content }
        }
    }

    /// Opens the critical section for the running task and merges what was
    /// recorded earlier. The scheduler is kept from switching tasks until
    /// [`release`](Self::release).
    ///
    /// Only a task may call this, and only while the section is free: a task
    /// never finds it open unless it opened it itself, and to open it twice
    /// is an error.
    pub fn acquire(&mut self, sched: &mut Scheduler)
        requires
            old(self).wf(),
            !old(self)@.open,
            old(sched).wf(),
            old(sched)@.task_context(),
            old(sched)@.suspended < usize::MAX,
        ensures
            final(self).wf(),
            final(sched).wf(),
            final(self)@.open,
            final(sched)@.suspended == old(sched)@.suspended + 1,
            final(sched)@.isr_depth == old(sched)@.isr_depth,
            (final(self)@.content, final(sched)@) == T::merged(
                old(self)@.content,
                SchedulerView { suspended: old(sched)@.suspended + 1, ..old(sched)@ },
            ),
    {
        self.locked = true;
        sched.suspend();
        self.content.run_pended_op(sched);
    }

    /// Opens the critical section as [`acquire`](Self::acquire) does and
    /// grants full access to the state.
    pub fn must_with_full_access<'a>(&'a mut self, sched: &mut Scheduler) -> (full_access: &'a mut T)
        requires
            old(self).wf(),
            !old(self)@.open,
            old(sched).wf(),
            old(sched)@.task_context(),
            old(sched)@.suspended < usize::MAX,
        ensures
            final(sched).wf(),
            final(self)@.open,
            final(sched)@.suspended == old(sched)@.suspended + 1,
            final(sched)@.isr_depth == old(sched)@.isr_depth,
            (full_access@, final(sched)@) == T::merged(
                old(self)@.content,
                SchedulerView { suspended: old(sched)@.suspended + 1, ..old(sched)@ },
            ),
            T::inv(full_access@),
            final(self)@.content == final(full_access)@,
    {
        self.acquire(sched);
        &mut self.content
    }

    /// Closes the critical section and lets the scheduler switch tasks
    /// again. Called by the context that was granted full access.
    pub fn release(&mut self, sched: &mut Scheduler)
        requires
            old(self)@.open,
            old(sched).wf(),
            old(sched)@.suspended > 0,
        ensures
            final(self)@ == (SoftLockView { open: false, ..old(self)@ }),
            final(sched).wf(),
            final(sched)@ == (SchedulerView {
                suspended: (old(sched)@.suspended - 1) as nat,
                ..old(sched)@
            }),
    {
        self.locked = false;
        sched.resume();
    }
}

} // verus!
