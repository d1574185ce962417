//! The mutex: exclusive ownership, handed to waiting tasks in the order of
//! their priority, with a poison flag that remembers an abnormal release.

use vstd::prelude::*;
use crate::queue::{distinct, lemma_placed_keeps_order, lemma_skip_keeps_order,
    lemma_without_keeps_order, placed, sorted, without, Entry, OrderedQueue};
use crate::schedule::{Scheduler, SchedulerView, Step};
use crate::sync::soft_lock::{AllowPendOp, NoPendingOp, SoftLock, SoftLockView};
use crate::task::{TaskId, TaskState};

verus! {

/// The state of a mutex as contracts speak of it.
pub struct MutexState {
    /// The task that holds the mutex, if it is held.
    pub owner: Option<TaskId>,
    /// Whether a holder ever released the mutex while panicking. Once set,
    /// the flag is never cleared.
    pub poisoned: bool,
    /// The tasks blocked on the mutex, keyed by priority number: the most
    /// urgent first, and first come first served among equals.
    pub waiters: Seq<Entry>,
}

impl MutexState {
    /// The wait queue is in order and holds no task twice, and tasks wait
    /// only while the mutex is held.
    pub open spec fn wf(self) -> bool {
        &&& sorted(self.waiters)
        &&& distinct(self.waiters)
        &&& self.owner.is_none() ==> self.waiters.len() == 0
    }

    /// Whether the mutex is held.
    pub open spec fn held(self) -> bool {
        self.owner.is_some()
    }

    /// A free mutex that was never poisoned.
    pub open spec fn free() -> MutexState {
        MutexState { owner: None, poisoned: false, waiters: Seq::empty() }
    }

    /// State and scheduler after the running task asked for the mutex, and
    /// whether it got it at once. A task that asks while the mutex is held,
    /// by whomever, joins the wait queue and is blocked.
    pub open spec fn locked(self, s: SchedulerView) -> (MutexState, SchedulerView, bool) {
        let me = s.current.unwrap();
        match self.owner {
            None => (MutexState { owner: Some(me), ..self }, s, true),
            Some(_) => (
                MutexState {
                    waiters: placed(
                        without(self.waiters, me),
                        Entry { key: s.tasks[me as int].priority as u64, task: me },
                    ),
                    ..self
                },
                s.with_state(me, TaskState::Blocked),
                false,
            ),
        }
    }

    /// State and scheduler after `n` releases in a row, each by the task
    /// that the release before it made the holder, and none of them
    /// panicking.
    pub open spec fn unlocked_times(self, s: SchedulerView, n: nat) -> (MutexState, SchedulerView)
        decreases n,
    {
        if n == 0 {
            (self, s)
        } else {
            let (m, s1) = self.unlocked(s, false);
            m.unlocked_times(s1, (n - 1) as nat)
        }
    }

    /// State and scheduler after the holder released the mutex. The first
    /// task of the wait queue becomes the holder and is made ready; without
    /// a waiting task the mutex is free. A release by a panicking holder
    /// poisons the mutex first.
    pub open spec fn unlocked(self, s: SchedulerView, panicking: bool) -> (MutexState, SchedulerView) {
        let poisoned = self.poisoned || panicking;
        if self.waiters.len() > 0 {
            let next = self.waiters[0].task;
            (
                MutexState { owner: Some(next), poisoned, waiters: self.waiters.skip(1) },
                s.readied(next),
            )
        } else {
            (MutexState { owner: None, poisoned, waiters: self.waiters }, s)
        }
    }
}

/// What a mutex keeps under its soft lock.
pub struct Inner {
    owner: Option<TaskId>,
    poisoned: bool,
    waiters: OrderedQueue,
    pend: NoPendingOp,
}

impl View for Inner {
    type V = MutexState;

    closed spec fn view(&self) -> MutexState {
        MutexState { owner: self.owner, poisoned: self.poisoned, waiters: self.waiters@ }
    }
}

impl AllowPendOp for Inner {
    type PendOnlyAccessor = NoPendingOp;

    open spec fn inv(v: MutexState) -> bool {
        v.wf()
    }

    open spec fn pend_part(v: MutexState) -> () {
        ()
    }

    open spec fn with_pend(v: MutexState, p: ()) -> MutexState {
        v
    }

    open spec fn merged(v: MutexState, s: SchedulerView) -> (MutexState, SchedulerView) {
        (v, s)
    }

    fn pend_only_access(&mut self) -> (p: &mut NoPendingOp) {
        &mut self.pend
    }

    fn run_pended_op(&mut self, sched: &mut Scheduler) {
    }
}

/// Proof of ownership of a mutex. It is handed out when the mutex is
/// acquired and handed back to release it. The platform wraps it in a scope
/// guard whose destructor releases the mutex on every way out of the scope,
/// an unwind included.
#[derive(Debug)]
pub struct MutexGuard {
    task: TaskId,
}

impl MutexGuard {
    /// The task that acquired the mutex.
    pub closed spec fn holder(&self) -> TaskId {
        self.task
    }

    /// The task that acquired the mutex.
    pub fn task(&self) -> (t: TaskId)
        ensures
            t == self.holder(),
    {
        self.task
    }
}

/// A lock that one task holds at a time, around a value of type `T`.
///
/// Tasks that find the mutex held wait in the order of their priority. On
/// release the mutex goes straight to the first of them, which does not
/// compete for it again.
///
/// The mutex is not reentrant. A task that asks for a mutex which it holds
/// itself joins the wait queue behind its own release and never runs again.
pub struct Mutex<T> {
    inner: SoftLock<Inner>,
    data: T,
}

impl<T> View for Mutex<T> {
    type V = SoftLockView<MutexState>;

    closed spec fn view(&self) -> SoftLockView<MutexState> {
        self.inner@
    }
}

impl<T> Mutex<T> {
    /// The state of the mutex satisfies its invariant, and no critical
    /// section is left open.
    pub open spec fn wf(&self) -> bool {
        self@.content.wf() && !self@.open
    }

    /// The protected value.
    pub closed spec fn data(&self) -> T {
        self.data
    }

    /// A free mutex around `data`.
    pub fn new(data: T) -> (mutex: Mutex<T>)
        ensures
            mutex.wf(),
            mutex@.content == MutexState::free(),
            mutex.data() == data,
    {
        Mutex {
            inner: SoftLock::new(
                Inner {
                    owner: None,
                    poisoned: false,
                    waiters: OrderedQueue::new(),
                    pend: NoPendingOp {  },
                },
            ),
            data,
        }
    }

    /// Asks for the mutex on behalf of the running task.
    ///
    /// If the mutex is free the task holds it now, and the result is `Done`
    /// with the guard. Otherwise the task joins the wait queue at the place
    /// of its priority and is blocked; the result is `Park`. The task must
    /// then yield. When it runs again the mutex is its own, and
    /// [`resume_lock`](Self::resume_lock) hands out the guard.
    pub fn lock(&mut self, sched: &mut Scheduler) -> (step: Step<MutexGuard, ()>)
        requires
            old(self).wf(),
            old(sched).wf(),
            old(sched)@.task_context(),
            old(sched)@.suspended < usize::MAX,
        ensures
            final(self).wf(),
            final(sched).wf(),
            final(self).data() == old(self).data(),
            (final(self)@.content, final(sched)@) == (
                old(self)@.content.locked(old(sched)@).0,
                old(self)@.content.locked(old(sched)@).1,
            ),
            match step {
                Step::Done(guard) => old(self)@.content.locked(old(sched)@).2 && guard.holder()
                    == old(sched)@.current.unwrap(),
                Step::Park(_) => !old(self)@.content.locked(old(sched)@).2,
            },
    {
        let me = sched.current().unwrap();
        let priority = sched.task(me).unwrap().priority;
        let full_access = self.inner.must_with_full_access(sched);
        let step = match full_access.owner {
            None => {
                full_access.owner = Some(me);
                Step::Done(MutexGuard { task: me })
            },
            Some(_) => {
                full_access.waiters.insert(me, priority as u64);
                sched.block_current();
                Step::Park(())
            },
        };
        self.inner.release(sched);
        step
    }

    /// Hands out the guard to the task that was parked in
    /// [`lock`](Self::lock) and runs again. The release that woke the task
    /// has made it the holder already.
    pub fn resume_lock(&self, sched: &Scheduler) -> (guard: MutexGuard)
        requires
            self.wf(),
            sched.wf(),
            sched@.task_context(),
            self@.content.owner == sched@.current,
        ensures
            guard.holder() == sched@.current.unwrap(),
    {
        MutexGuard { task: sched.current().unwrap() }
    }

    /// Releases the mutex. `panicking` says whether the holder leaves the
    /// guarded scope by an unwind; the mutex is then poisoned, and stays so.
    ///
    /// If tasks wait, the first of the wait queue becomes the holder and is
    /// made ready, whether or not the mutex is poisoned. Otherwise the mutex
    /// is free.
    pub fn unlock(&mut self, sched: &mut Scheduler, guard: MutexGuard, panicking: bool)
        requires
            old(self).wf(),
            old(sched).wf(),
            old(sched)@.task_context(),
            old(sched)@.suspended < usize::MAX,
            old(self)@.content.owner == Some(guard.holder()),
        ensures
            final(self).wf(),
            final(sched).wf(),
            final(self).data() == old(self).data(),
            (final(self)@.content, final(sched)@) == old(self)@.content.unlocked(
                old(sched)@,
                panicking,
            ),
    {
        let full_access = self.inner.must_with_full_access(sched);
        if panicking {
            full_access.poisoned = true;
        }
        match full_access.waiters.pop_front() {
            Some(next) => {
                full_access.owner = Some(next.task);
                sched.make_ready(next.task);
            },
            None => {
                full_access.owner = None;
            },
        }
        self.inner.release(sched);
    }

    /// Whether a holder ever released the mutex while panicking.
    pub fn is_poisoned(&self) -> (b: bool)
        ensures
            b == self@.content.poisoned,
    {
        self.inner.peek().poisoned
    }

    /// The task that holds the mutex, if it is held.
    pub fn owner(&self) -> (t: Option<TaskId>)
        ensures
            t == self@.content.owner,
    {
        self.inner.peek().owner
    }

    /// Number of tasks blocked on the mutex.
    pub fn waiter_count(&self) -> (n: usize)
        ensures
            n == self@.content.waiters.len(),
    {
        self.inner.peek().waiters.len()
    }

    /// The protected value, for the holder to read.
    pub fn get(&self, guard: &MutexGuard) -> (data: &T)
        requires
            self@.content.owner == Some(guard.holder()),
        ensures
            *data == self.data(),
    {
        &self.data
    }

    /// Replaces the protected value and returns the one that was there.
    pub fn replace(&mut self, guard: &MutexGuard, data: T) -> (previous: T)
        requires
            old(self)@.content.owner == Some(guard.holder()),
        ensures
            previous == old(self).data(),
            final(self).data() == data,
            final(self)@ == old(self)@,
    {
        let mut data = data;
        std::mem::swap(&mut self.data, &mut data);
        data
    }
}

/// A release hands the mutex to the most urgent of the waiting tasks: the
/// new holder is the front of the wait queue, no waiting task has a lower
/// priority number, and the new holder is made ready.
pub proof fn lemma_release_goes_to_most_urgent(m: MutexState, s: SchedulerView, panicking: bool)
    requires
        m.wf(),
        m.waiters.len() > 0,
    ensures
        m.unlocked(s, panicking).0.wf(),
        m.unlocked(s, panicking).0.owner == Some(m.waiters[0].task),
        m.unlocked(s, panicking).0.waiters == m.waiters.skip(1),
        m.unlocked(s, panicking).1 == s.readied(m.waiters[0].task),
        forall|i: int| 0 <= i < m.waiters.len() ==> m.waiters[0].key <= (#[trigger] m.waiters[i]).key,
{
    lemma_skip_keeps_order(m.waiters, 1);
}

/// Successive releases serve the waiting tasks in the order of the wait
/// queue, that is by priority: after `n` releases the holder is the `n`-th
/// task of the queue, and of two waiting tasks with different priority
/// numbers the one with the lower number becomes the holder first.
pub proof fn lemma_releases_follow_priority(m: MutexState, s: SchedulerView, n: nat)
    requires
        m.wf(),
        0 < n <= m.waiters.len(),
    ensures
        m.unlocked_times(s, n).0.wf(),
        m.unlocked_times(s, n).0.owner == Some(m.waiters[n - 1].task),
        m.unlocked_times(s, n).0.waiters == m.waiters.skip(n as int),
        forall|i: int, j: int|
            0 <= i < m.waiters.len() && 0 <= j < m.waiters.len() && m.waiters[i].key
                < m.waiters[j].key ==> i < j,
    decreases n,
{
    lemma_release_goes_to_most_urgent(m, s, false);
    let (next, s1) = m.unlocked(s, false);
    if n > 1 {
        lemma_releases_follow_priority(next, s1, (n - 1) as nat);
        assert(m.waiters.skip(1).skip(n - 1) == m.waiters.skip(n as int));
        assert(m.waiters.skip(1)[n - 2] == m.waiters[n - 1]);
    } else {
        assert(next.unlocked_times(s1, 0) == (next, s1));
    }
}

/// A task that finds the mutex held waits at the place of its priority:
/// behind the waiting tasks that are at least as urgent, before those that
/// are less urgent. The mutex stays with its holder.
pub proof fn lemma_waiter_takes_its_place(m: MutexState, s: SchedulerView)
    requires
        m.wf(),
        m.held(),
        s.current.is_some(),
    ensures
        ({
            let me = s.current.unwrap();
            let (after, s1, got) = m.locked(s);
            let entry = Entry { key: s.tasks[me as int].priority as u64, task: me };
            &&& !got
            &&& after.wf()
            &&& after.owner == m.owner
            &&& after.waiters == placed(without(m.waiters, me), entry)
            &&& s1 == s.with_state(me, TaskState::Blocked)
        }),
{
    let me = s.current.unwrap();
    lemma_without_keeps_order(m.waiters, me);
    lemma_placed_keeps_order(
        without(m.waiters, me),
        Entry { key: s.tasks[me as int].priority as u64, task: me },
    );
}

/// Poison is permanent. A release by a panicking holder poisons the mutex,
/// and no operation on a poisoned mutex makes it sound again.
pub proof fn lemma_poison_is_permanent(m: MutexState, s: SchedulerView, panicking: bool)
    ensures
        m.unlocked(s, true).0.poisoned,
        m.poisoned ==> m.locked(s).0.poisoned,
        m.poisoned ==> m.unlocked(s, panicking).0.poisoned,
        !m.poisoned && !panicking ==> !m.unlocked(s, panicking).0.poisoned && !m.locked(s).0.poisoned,
{
}

} // verus!
