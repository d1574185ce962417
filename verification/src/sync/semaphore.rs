//! The counting semaphore: a bounded number of units that tasks take,
//! waiting in the order of their priority when none is left.

use vstd::prelude::*;
use crate::queue::{distinct, lemma_placed_keeps_order, lemma_skip_keeps_order,
    lemma_without_keeps_order, placed, sorted, without, Entry, OrderedQueue};
use crate::schedule::{Scheduler, SchedulerView, Step};
use crate::sync::soft_lock::{bumped, Access, AllowPendOp, SoftLock, SoftLockView};
use crate::task::TaskState;

verus! {

/// The two counters of a semaphore as contracts speak of them.
pub struct CountersView {
    /// Units that can be taken.
    pub count: nat,
    /// Units given back while a critical section was open. The next context
    /// with full access adds them to `count`.
    pub pending_up: nat,
}

/// The counters of a semaphore. They are what a context may touch that
/// preempts a critical section: both operations are single steps.
pub struct Counters {
    count: usize,
    pending_up: usize,
}

impl View for Counters {
    type V = CountersView;

    closed spec fn view(&self) -> CountersView {
        CountersView { count: self.count as nat, pending_up: self.pending_up as nat }
    }
}

impl Counters {
    /// Records that one unit was given back. The record stops counting at
    /// the largest `usize`.
    pub fn post_up(&mut self)
        ensures
            final(self)@ == (CountersView { pending_up: bumped(old(self)@.pending_up), ..old(self)@ }),
    {
        if self.pending_up < usize::MAX {
            self.pending_up = self.pending_up + 1;
        }
    }

    /// Takes one unit if there is one. Fails, and changes nothing, if the
    /// count is zero.
    pub fn try_take(&mut self) -> (r: Result<(), ()>)
        ensures
            r.is_ok() == (old(self)@.count > 0),
            final(self)@ == (if old(self)@.count > 0 {
                CountersView { count: (old(self)@.count - 1) as nat, ..old(self)@ }
            } else {
                old(self)@
            }),
    {
        if self.count > 0 {
            self.count = self.count - 1;
            Ok(())
        } else {
            Err(())
        }
    }
}

/// The state of a semaphore as contracts speak of it.
pub struct SemaphoreState {
    /// Units that can be taken, never more than `max`.
    pub count: nat,
    /// The bound of `count`, fixed at construction.
    pub max: nat,
    /// Units given back while a critical section was open.
    pub pending_up: nat,
    /// The tasks blocked on the semaphore, keyed by priority number: the most
    /// urgent first, and first come first served among equals.
    pub waiters: Seq<Entry>,
}

/// The smaller of two numbers.
pub open spec fn least(a: nat, b: nat) -> nat {
    if a <= b {
        a
    } else {
        b
    }
}

impl SemaphoreState {
    /// The count is within its bound, the counters fit a machine word, and
    /// the wait queue is in order and holds no task twice.
    pub open spec fn wf(self) -> bool {
        &&& self.count <= self.max <= usize::MAX
        &&& self.pending_up <= usize::MAX
        &&& sorted(self.waiters)
        &&& distinct(self.waiters)
    }

    /// A semaphore with `initial` units of at most `max`, and nobody waiting.
    pub open spec fn fresh(max: nat, initial: nat) -> SemaphoreState {
        SemaphoreState { count: initial, max, pending_up: 0, waiters: Seq::empty() }
    }

    /// State and scheduler after the pending units were merged: the count
    /// grows by their number, up to its bound, and for each of them the
    /// first task of the wait queue is made ready.
    pub open spec fn merged(self, s: SchedulerView) -> (SemaphoreState, SchedulerView) {
        let woken = least(self.pending_up, self.waiters.len());
        (
            SemaphoreState {
                count: least(self.count + self.pending_up, self.max),
                pending_up: 0,
                waiters: self.waiters.skip(woken as int),
                ..self
            },
            s.readied_all(self.waiters.take(woken as int)),
        )
    }

    /// The state after an attempt to take a unit, and whether it succeeded.
    pub open spec fn taken(self) -> (SemaphoreState, bool) {
        if self.count > 0 {
            (SemaphoreState { count: (self.count - 1) as nat, ..self }, true)
        } else {
            (self, false)
        }
    }

    /// The state with one more unit recorded as given back.
    pub open spec fn posted(self) -> SemaphoreState {
        SemaphoreState { pending_up: bumped(self.pending_up), ..self }
    }

    /// State and scheduler after the running task joined the wait queue and
    /// was blocked.
    pub open spec fn queued(self, s: SchedulerView) -> (SemaphoreState, SchedulerView) {
        let me = s.current.unwrap();
        (
            SemaphoreState {
                waiters: placed(
                    without(self.waiters, me),
                    Entry { key: s.tasks[me as int].priority as u64, task: me },
                ),
                ..self
            },
            s.with_state(me, TaskState::Blocked),
        )
    }
}

/// What a semaphore keeps under its soft lock.
pub struct Inner {
    counters: Counters,
    max: usize,
    waiters: OrderedQueue,
}

impl View for Inner {
    type V = SemaphoreState;

    closed spec fn view(&self) -> SemaphoreState {
        SemaphoreState {
            count: self.counters@.count,
            max: self.max as nat,
            pending_up: self.counters@.pending_up,
            waiters: self.waiters@,
        }
    }
}

impl AllowPendOp for Inner {
    type PendOnlyAccessor = Counters;

    open spec fn inv(v: SemaphoreState) -> bool {
        v.wf()
    }

    open spec fn pend_part(v: SemaphoreState) -> CountersView {
        CountersView { count: v.count, pending_up: v.pending_up }
    }

    open spec fn with_pend(v: SemaphoreState, p: CountersView) -> SemaphoreState {
        SemaphoreState { count: p.count, pending_up: p.pending_up, ..v }
    }

    open spec fn merged(v: SemaphoreState, s: SchedulerView) -> (SemaphoreState, SchedulerView) {
        v.merged(s)
    }

    fn pend_only_access(&mut self) -> (p: &mut Counters) {
        &mut self.counters
    }

    fn run_pended_op(&mut self, sched: &mut Scheduler) {
        let pending = self.counters.pending_up;
        self.counters.pending_up = 0;
        let room = self.max - self.counters.count;
        self.counters.count = if pending <= room {
            self.counters.count + pending
        } else {
            self.max
        };
        proof {
            let woken = least(pending as nat, self.waiters@.len());
            lemma_skip_keeps_order(self.waiters@, woken as int);
        }
        let _ = sched.wake_first(&mut self.waiters, pending);
    }
}

/// A bounded counter of units.
///
/// A task that takes a unit when none is left waits. Giving a unit back
/// wakes the most urgent waiting task, which then takes its unit like any
/// other caller and waits again if a more urgent context was faster.
pub struct Semaphore {
    inner: SoftLock<Inner>,
}

impl View for Semaphore {
    type V = SoftLockView<SemaphoreState>;

    closed spec fn view(&self) -> SoftLockView<SemaphoreState> {
        self.inner@
    }
}

impl SoftLockView<SemaphoreState> {
    /// Semaphore and scheduler after a context was granted full access: the
    /// section is open and what was pending is merged.
    pub open spec fn entered(self, s: SchedulerView) -> (SoftLockView<SemaphoreState>, SchedulerView) {
        let (merged, s1) = self.content.merged(s);
        (SoftLockView { open: true, content: merged }, s1)
    }

    /// The semaphore after the critical section was closed.
    pub open spec fn left(self) -> SoftLockView<SemaphoreState> {
        SoftLockView { open: false, ..self }
    }

    /// Semaphore and scheduler after the running task asked for a unit, and
    /// whether it got one.
    pub open spec fn downed(self, s: SchedulerView) -> (SoftLockView<SemaphoreState>, SchedulerView, bool) {
        let (merged, s1) = self.content.merged(s);
        if merged.count > 0 {
            (SoftLockView { content: merged.taken().0, ..self }, s1, true)
        } else {
            let (queued, s2) = merged.queued(s1);
            (SoftLockView { content: queued, ..self }, s2, false)
        }
    }

    /// Semaphore and scheduler after an attempt to take a unit without
    /// waiting, and whether it succeeded. While a critical section is open
    /// the attempt works on the count as it stands, without merging.
    pub open spec fn tried_down(self, s: SchedulerView) -> (
        SoftLockView<SemaphoreState>,
        SchedulerView,
        bool,
    ) {
        if self.open {
            (SoftLockView { content: self.content.taken().0, ..self }, s, self.content.taken().1)
        } else {
            let (merged, s1) = self.content.merged(s);
            (SoftLockView { content: merged.taken().0, ..self }, s1, merged.taken().1)
        }
    }

    /// Semaphore and scheduler after a unit was given back. While a critical
    /// section is open the unit is only recorded as pending.
    pub open spec fn upped(self, s: SchedulerView) -> (SoftLockView<SemaphoreState>, SchedulerView) {
        if self.open {
            (SoftLockView { content: self.content.posted(), ..self }, s)
        } else {
            let (merged, s1) = self.content.merged(s);
            let (raised, s2) = merged.posted().merged(s1);
            (SoftLockView { content: raised, ..self }, s2)
        }
    }
}

impl Semaphore {
    /// The state of the semaphore satisfies its invariant.
    pub open spec fn wf(&self) -> bool {
        self@.content.wf()
    }

    /// A semaphore that holds `initial` units and never more than `max`.
    pub fn new(max: usize, initial: usize) -> (semaphore: Semaphore)
        requires
            initial <= max,
        ensures
            semaphore.wf(),
            semaphore@ == (SoftLockView {
                open: false,
                content: SemaphoreState::fresh(max as nat, initial as nat),
            }),
    {
        Semaphore {
            inner: SoftLock::new(
                Inner {
                    counters: Counters { count: initial, pending_up: 0 },
                    max,
                    waiters: OrderedQueue::new(),
                },
            ),
        }
    }

    /// Opens a critical section on the semaphore for the running task, as
    /// the first step of every blocking operation does, and merges what is
    /// pending. Until [`release`](Self::release) every other operation finds
    /// the section open.
    pub fn acquire(&mut self, sched: &mut Scheduler)
        requires
            old(self).wf(),
            old(sched).wf(),
            old(sched)@.task_context(),
            old(sched)@.suspended < usize::MAX,
            !old(self)@.open,
        ensures
            final(self).wf(),
            final(sched).wf(),
            final(self)@ == old(self)@.entered(old(sched)@).0,
            final(sched)@ == (SchedulerView {
                suspended: old(sched)@.suspended + 1,
                ..old(self)@.entered(old(sched)@).1
            }),
    {
        self.inner.acquire(sched);
    }

    /// Closes the critical section that [`acquire`](Self::acquire) opened.
    pub fn release(&mut self, sched: &mut Scheduler)
        requires
            old(self).wf(),
            old(sched).wf(),
            old(self)@.open,
            old(sched)@.suspended > 0,
        ensures
            final(self).wf(),
            final(sched).wf(),
            final(self)@ == (SoftLockView { open: false, ..old(self)@ }),
            final(sched)@ == (SchedulerView {
                suspended: (old(sched)@.suspended - 1) as nat,
                ..old(sched)@
            }),
    {
        self.inner.release(sched);
    }

    /// Takes a unit on behalf of the running task.
    ///
    /// If a unit is left the task takes it, and the result is `Done`.
    /// Otherwise the task joins the wait queue at the place of its priority
    /// and is blocked; the result is `Park`. The task must then yield, and
    /// call `down` again once a unit was given back and the task runs again.
    pub fn down(&mut self, sched: &mut Scheduler) -> (step: Step<(), ()>)
        requires
            old(self).wf(),
            old(sched).wf(),
            old(sched)@.task_context(),
            old(sched)@.suspended < usize::MAX,
            !old(self)@.open,
        ensures
            final(self).wf(),
            final(sched).wf(),
            (final(self)@, final(sched)@) == (
                old(self)@.downed(old(sched)@).0,
                old(self)@.downed(old(sched)@).1,
            ),
            (step is Done) == old(self)@.downed(old(sched)@).2,
    {
        let me = sched.current().unwrap();
        let priority = sched.task(me).unwrap().priority;
        let full_access = self.inner.must_with_full_access(sched);
        let step = match full_access.counters.try_take() {
            Ok(_) => Step::Done(()),
            Err(_) => {
                full_access.waiters.insert(me, priority as u64);
                sched.block_current();
                Step::Park(())
            },
        };
        self.inner.release(sched);
        step
    }

    /// Takes a unit if one is left, and fails otherwise without any effect.
    /// Never blocks; may be called by a task and by an interrupt handler, at
    /// any instant.
    pub fn try_down_allow_isr(&mut self, sched: &mut Scheduler) -> (r: Result<(), ()>)
        requires
            old(self).wf(),
            old(sched).wf(),
            old(sched)@.suspended < usize::MAX,
        ensures
            final(self).wf(),
            final(sched).wf(),
            (final(self)@, final(sched)@) == (
                old(self)@.tried_down(old(sched)@).0,
                old(self)@.tried_down(old(sched)@).1,
            ),
            r.is_ok() == old(self)@.tried_down(old(sched)@).2,
    {
        match self.inner.with_access(sched) {
            Access::Full { full_access } => {
                let r = full_access.counters.try_take();
                self.inner.release(sched);
                r
            },
            Access::PendOnly { pend_access } => pend_access.try_take(),
        }
    }

    /// Gives a unit back: the count grows by one unless it is at its bound,
    /// and the first task of the wait queue, if there is one, is made ready.
    /// Never blocks; may be called by a task and by an interrupt handler, at
    /// any instant.
    ///
    /// While another context is in the middle of a critical section the unit
    /// is recorded as pending, and the next context with full access merges
    /// it.
    pub fn up(&mut self, sched: &mut Scheduler)
        requires
            old(self).wf(),
            old(sched).wf(),
            old(sched)@.suspended < usize::MAX,
        ensures
            final(self).wf(),
            final(sched).wf(),
            (final(self)@, final(sched)@) == old(self)@.upped(old(sched)@),
    {
        match self.inner.with_access(sched) {
            Access::Full { full_access } => {
                full_access.counters.post_up();
                full_access.run_pended_op(sched);
                self.inner.release(sched);
            },
            Access::PendOnly { pend_access } => {
                pend_access.post_up();
            },
        }
    }

    /// Whether a critical section is open.
    pub fn is_open(&self) -> (b: bool)
        ensures
            b == self@.open,
    {
        self.inner.is_open()
    }

    /// Units that can be taken, without those pending.
    pub fn count(&self) -> (n: usize)
        ensures
            n == self@.content.count,
    {
        self.inner.peek().counters.count
    }

    /// The bound of the count.
    pub fn max(&self) -> (n: usize)
        ensures
            n == self@.content.max,
    {
        self.inner.peek().max
    }

    /// Units given back while a critical section was open and not yet
    /// merged.
    pub fn pending_up(&self) -> (n: usize)
        ensures
            n == self@.content.pending_up,
    {
        self.inner.peek().counters.pending_up
    }

    /// Number of tasks blocked on the semaphore.
    pub fn waiter_count(&self) -> (n: usize)
        ensures
            n == self@.content.waiters.len(),
    {
        self.inner.peek().waiters.len()
    }
}

/// Merging keeps a semaphore well formed, leaves nothing pending, and wakes
/// the most urgent of the waiting tasks, one for each pending unit.
pub proof fn lemma_merge_keeps_bounds(state: SemaphoreState, s: SchedulerView)
    requires
        state.wf(),
    ensures
        state.merged(s).0.wf(),
        state.merged(s).0.pending_up == 0,
        state.merged(s).0.max == state.max,
        state.merged(s).0.count == least(state.count + state.pending_up, state.max),
        state.pending_up == 0 ==> state.merged(s) == (state, s),
{
    let woken = least(state.pending_up, state.waiters.len());
    lemma_skip_keeps_order(state.waiters, woken as int);
    if state.pending_up == 0 {
        assert(state.waiters.skip(0) == state.waiters);
        assert(s.readied_all(state.waiters.take(0)).tasks =~= s.tasks);
    }
}

/// The count of a semaphore stays between zero and its bound, whatever is
/// done to the semaphore, with or without an open critical section.
pub proof fn lemma_count_stays_in_bounds(sem: SoftLockView<SemaphoreState>, s: SchedulerView)
    requires
        sem.content.wf(),
    ensures
        sem.entered(s).0.content.wf(),
        sem.downed(s).0.content.wf(),
        sem.tried_down(s).0.content.wf(),
        sem.upped(s).0.content.wf(),
        sem.entered(s).0.content.max == sem.content.max,
        sem.downed(s).0.content.max == sem.content.max,
        sem.tried_down(s).0.content.max == sem.content.max,
        sem.upped(s).0.content.max == sem.content.max,
{
    lemma_merge_keeps_bounds(sem.content, s);
    let (merged, s1) = sem.content.merged(s);
    lemma_merge_keeps_bounds(merged.posted(), s1);
    let me = s1.current.unwrap();
    lemma_without_keeps_order(merged.waiters, me);
    lemma_placed_keeps_order(
        without(merged.waiters, me),
        Entry { key: s1.tasks[me as int].priority as u64, task: me },
    );
}

/// An attempt to take a unit without waiting fails exactly when the count
/// that it finds is zero: the count itself while a critical section is open,
/// the count with the pending units merged otherwise. A successful attempt
/// lowers that count by one. A failed attempt on a semaphore without pending
/// units changes nothing at all.
pub proof fn lemma_try_down_fails_only_at_zero(sem: SoftLockView<SemaphoreState>, s: SchedulerView)
    requires
        sem.content.wf(),
    ensures
        ({
            let (after, s1, taken) = sem.tried_down(s);
            let found = if sem.open {
                sem.content.count
            } else {
                least(sem.content.count + sem.content.pending_up, sem.content.max)
            };
            &&& taken == (found > 0)
            &&& taken ==> after.content.count == found - 1
            &&& !taken ==> after.content.count == 0
            &&& sem.open ==> s1 == s && after.content.waiters == sem.content.waiters
                && after.content.pending_up == sem.content.pending_up
            &&& !taken && (sem.open || sem.content.pending_up == 0) ==> after == sem && s1 == s
        }),
{
    lemma_merge_keeps_bounds(sem.content, s);
}

/// A unit that is given back while a critical section is open neither waits
/// nor is lost. It touches nothing but the pending counter, and the next
/// context that is granted full access finds it merged into the count, up to
/// the bound, with a waiting task woken for it.
pub proof fn lemma_up_in_open_section_is_merged(
    sem: SoftLockView<SemaphoreState>,
    s: SchedulerView,
    later: SchedulerView,
)
    requires
        sem.content.wf(),
        sem.open,
        sem.content.pending_up < usize::MAX,
    ensures
        ({
            let (recorded, s1) = sem.upped(s);
            let (merged, s2) = recorded.left().entered(later);
            let woken = least(sem.content.pending_up + 1, sem.content.waiters.len());
            &&& s1 == s
            &&& recorded == (SoftLockView {
                content: SemaphoreState {
                    pending_up: sem.content.pending_up + 1,
                    ..sem.content
                },
                ..sem
            })
            &&& merged.content.wf()
            &&& merged.content.pending_up == 0
            &&& merged.content.count == least(
                sem.content.count + sem.content.pending_up + 1,
                sem.content.max,
            )
            &&& merged.content.waiters == sem.content.waiters.skip(woken as int)
            &&& s2 == later.readied_all(sem.content.waiters.take(woken as int))
        }),
{
    lemma_merge_keeps_bounds(sem.upped(s).0.content, later);
}

} // verus!
