//! The mailbox: one task waits, with a timeout, for a notification that any
//! task or interrupt handler may post.

use vstd::prelude::*;
use crate::queue::{lemma_placed_is_stable, lemma_placed_keeps_order, lemma_without_keeps_order,
    without, Entry};
use crate::schedule::{lemma_sleeper_wakes_on_time, Scheduler, SchedulerView, Step};
use crate::sync::soft_lock::{bumped, capped_sum, Access, AllowPendOp, PendingCount, SoftLock,
    SoftLockView};
use crate::task::{TaskId, TaskState};

verus! {

/// The timeout, in ticks, of one round of an unbounded [`Mailbox::wait`].
pub const WAIT_ROUND_TICKS: u32 = 100_000_000;

/// The tick at which a wait that starts at `tick` times out. The sum stops
/// at the largest tick.
pub open spec fn deadline(tick: u64, timeout_ms: u32) -> u64 {
    if tick + timeout_ms <= u64::MAX {
        (tick + timeout_ms) as u64
    } else {
        u64::MAX
    }
}

/// The state of a mailbox as contracts speak of it.
pub struct MailboxState {
    /// Notifications posted and not yet consumed by a wait. The counter
    /// stops at the largest `usize`; a notification beyond that is dropped.
    pub count: nat,
    /// Notifications that arrived while a critical section was open. The
    /// next context with full access moves them to `count`.
    pub pending_count: nat,
    /// The task parked on the mailbox, if any.
    pub wait_task: Option<TaskId>,
    /// Whether the last wake was caused by a notification, as opposed to a
    /// timeout.
    pub task_notified: bool,
}

impl MailboxState {
    /// Both counters fit a machine word, and a task is parked only while no
    /// notification is left to consume.
    pub open spec fn wf(self) -> bool {
        &&& self.count <= usize::MAX
        &&& self.pending_count <= usize::MAX
        &&& self.wait_task.is_some() ==> self.count == 0
    }

    /// An empty mailbox.
    pub open spec fn empty() -> MailboxState {
        MailboxState { count: 0, pending_count: 0, wait_task: None, task_notified: false }
    }

    /// State and scheduler after the pending notifications were merged: they
    /// are added to the count, and if a task is parked and there is now a
    /// notification for it, the task consumes one and is woken.
    pub open spec fn merged(self, s: SchedulerView) -> (MailboxState, SchedulerView) {
        let count = capped_sum(self.count, self.pending_count);
        match self.wait_task {
            Some(t) if count > 0 => (
                MailboxState {
                    count: (count - 1) as nat,
                    pending_count: 0,
                    wait_task: None,
                    task_notified: true,
                },
                s.awoken(t),
            ),
            _ => (MailboxState { count, pending_count: 0, ..self }, s),
        }
    }

    /// State and scheduler after a notification was posted with full access:
    /// a parked task is woken and handed the notification, otherwise the
    /// notification is counted.
    pub open spec fn posted(self, s: SchedulerView) -> (MailboxState, SchedulerView) {
        match self.wait_task {
            Some(t) => (MailboxState { wait_task: None, task_notified: true, ..self }, s.awoken(t)),
            None => (MailboxState { count: bumped(self.count), task_notified: true, ..self }, s),
        }
    }

    /// State and scheduler after the running task began to wait with full
    /// access, and whether the wait is over at once.
    pub open spec fn awaited(self, s: SchedulerView, timeout_ms: u32) -> (
        MailboxState,
        SchedulerView,
        Step<bool, ()>,
    ) {
        if self.count > 0 {
            (MailboxState { count: (self.count - 1) as nat, ..self }, s, Step::Done(true))
        } else {
            let me = s.current.unwrap();
            (
                MailboxState { wait_task: Some(me), task_notified: false, ..self },
                s.with_state(me, TaskState::Blocked).asleep(me, deadline(s.tick, timeout_ms)),
                Step::Park(()),
            )
        }
    }
}

/// What a mailbox keeps under its soft lock.
pub struct Inner {
    count: usize,
    pending_count: PendingCount,
    wait_task: Option<TaskId>,
    task_notified: bool,
}

impl View for Inner {
    type V = MailboxState;

    closed spec fn view(&self) -> MailboxState {
        MailboxState {
            count: self.count as nat,
            pending_count: self.pending_count@,
            wait_task: self.wait_task,
            task_notified: self.task_notified,
        }
    }
}

impl Inner {
    /// The state of an empty mailbox.
    pub fn new() -> (inner: Inner)
        ensures
            inner@ == MailboxState::empty(),
    {
        Inner {
            count: 0,
            pending_count: PendingCount::new(),
            wait_task: None,
            task_notified: false,
        }
    }
}

impl AllowPendOp for Inner {
    type PendOnlyAccessor = PendingCount;

    open spec fn inv(v: MailboxState) -> bool {
        v.wf()
    }

    open spec fn pend_part(v: MailboxState) -> nat {
        v.pending_count
    }

    open spec fn with_pend(v: MailboxState, p: nat) -> MailboxState {
        MailboxState { pending_count: p, ..v }
    }

    open spec fn merged(v: MailboxState, s: SchedulerView) -> (MailboxState, SchedulerView) {
        v.merged(s)
    }

    fn pend_only_access(&mut self) -> (p: &mut PendingCount) {
        &mut self.pending_count
    }

    fn run_pended_op(&mut self, sched: &mut Scheduler) {
        // The counter is read and reset in one step. A notification that an
        // interrupt handler posts right after is counted by the next merge.
        let pending = self.pending_count.take();
        self.count = if pending <= usize::MAX - self.count {
            self.count + pending
        } else {
            usize::MAX
        };
        if self.count > 0 {
            match self.wait_task.take() {
                Some(wait_task) => {
                    sched.remove_task_from_sleep_queue_allow_isr(wait_task);
                    self.count = self.count - 1;
                    self.task_notified = true;
                },
                None => {},
            }
        }
    }
}

/// A notifier for one waiting task.
///
/// Any number of tasks and interrupt handlers may notify. At most one task
/// waits at a time. A notification that finds no task waiting is counted, and
/// a later wait consumes it without blocking.
pub struct Mailbox {
    inner: SoftLock<Inner>,
}

impl View for Mailbox {
    type V = SoftLockView<MailboxState>;

    closed spec fn view(&self) -> SoftLockView<MailboxState> {
        self.inner@
    }
}

impl SoftLockView<MailboxState> {
    /// Mailbox and scheduler after a notification. While a critical section
    /// is open the notification is only recorded as pending.
    pub open spec fn notified(self, s: SchedulerView) -> (SoftLockView<MailboxState>, SchedulerView) {
        if self.open {
            (
                SoftLockView {
                    content: MailboxState {
                        pending_count: bumped(self.content.pending_count),
                        ..self.content
                    },
                    ..self
                },
                s,
            )
        } else {
            let (merged, s1) = self.content.merged(s);
            let (posted, s2) = merged.posted(s1);
            (SoftLockView { content: posted, ..self }, s2)
        }
    }

    /// Mailbox and scheduler after a context was granted full access: the
    /// section is open and what was pending is merged.
    pub open spec fn entered(self, s: SchedulerView) -> (SoftLockView<MailboxState>, SchedulerView) {
        let (merged, s1) = self.content.merged(s);
        (SoftLockView { open: true, content: merged }, s1)
    }

    /// The mailbox after the critical section was closed.
    pub open spec fn left(self) -> SoftLockView<MailboxState> {
        SoftLockView { open: false, ..self }
    }

    /// Notifications that are counted or pending.
    pub open spec fn credit(self) -> nat {
        self.content.count + self.content.pending_count
    }

    /// Mailbox and scheduler after `n` notifications in a row.
    pub open spec fn notified_times(self, s: SchedulerView, n: nat) -> (
        SoftLockView<MailboxState>,
        SchedulerView,
    )
        decreases n,
    {
        if n == 0 {
            (self, s)
        } else {
            let (m, s1) = self.notified(s);
            m.notified_times(s1, (n - 1) as nat)
        }
    }

    /// Mailbox and scheduler after the running task waited `n` times in a
    /// row, each time with the timeout `timeout_ms`, and whether each of the
    /// waits was over at once, as notified.
    pub open spec fn awaited_times(self, s: SchedulerView, timeout_ms: u32, n: nat) -> (
        SoftLockView<MailboxState>,
        SchedulerView,
        bool,
    )
        decreases n,
    {
        if n == 0 {
            (self, s, true)
        } else {
            let (m, s1, step) = self.awaited(s, timeout_ms);
            let (last, s2, rest) = m.awaited_times(s1, timeout_ms, (n - 1) as nat);
            (last, s2, step == Step::<bool, ()>::Done(true) && rest)
        }
    }

    /// Whether the running task may begin to wait: no critical section is
    /// open, and once the pending notifications are merged no other task is
    /// parked on the mailbox.
    pub open spec fn can_wait(self, s: SchedulerView) -> bool {
        !self.open && self.content.merged(s).0.wait_task.is_none()
    }

    /// Mailbox and scheduler after the running task began to wait, and
    /// whether the wait is over at once.
    pub open spec fn awaited(self, s: SchedulerView, timeout_ms: u32) -> (
        SoftLockView<MailboxState>,
        SchedulerView,
        Step<bool, ()>,
    ) {
        let (merged, s1) = self.content.merged(s);
        let (content, s2, step) = merged.awaited(s1, timeout_ms);
        (SoftLockView { content, ..self }, s2, step)
    }

    /// Mailbox and scheduler after the task that was parked runs again, and
    /// whether it was woken by a notification.
    pub open spec fn resumed(self, s: SchedulerView) -> (SoftLockView<MailboxState>, SchedulerView, bool) {
        let (merged, s1) = self.content.merged(s);
        (
            SoftLockView { content: MailboxState { wait_task: None, ..merged }, ..self },
            s1,
            merged.task_notified,
        )
    }
}

impl Mailbox {
    /// The state of the mailbox satisfies its invariant.
    pub open spec fn wf(&self) -> bool {
        self@.content.wf()
    }

    /// A mailbox with no notification and no waiting task.
    pub fn new() -> (mailbox: Mailbox)
        ensures
            mailbox.wf(),
            mailbox@ == (SoftLockView { open: false, content: MailboxState::empty() }),
    {
        Mailbox { inner: SoftLock::new(Inner::new()) }
    }

    /// Opens a critical section on the mailbox for the running task, as the
    /// first step of every blocking operation does, and merges what is
    /// pending. Until [`release`](Self::release) a notification finds the
    /// section open and is recorded as pending.
    pub fn acquire(&mut self, sched: &mut Scheduler)
        requires
            old(self).wf(),
            old(sched).wf(),
            old(sched)@.task_context(),
            old(sched)@.suspended < usize::MAX,
            !old(self)@.open,
        ensures
            final(self).wf(),
            final(sched).wf(),
            final(self)@ == old(self)@.entered(old(sched)@).0,
            final(sched)@ == (SchedulerView {
                suspended: old(sched)@.suspended + 1,
                ..old(self)@.entered(old(sched)@).1
            }),
    {
        self.inner.acquire(sched);
    }

    /// Closes the critical section that [`acquire`](Self::acquire) opened.
    pub fn release(&mut self, sched: &mut Scheduler)
        requires
            old(self).wf(),
            old(sched).wf(),
            old(self)@.open,
            old(sched)@.suspended > 0,
        ensures
            final(self).wf(),
            final(sched).wf(),
            final(self)@ == (SoftLockView { open: false, ..old(self)@ }),
            final(sched)@ == (SchedulerView {
                suspended: (old(sched)@.suspended - 1) as nat,
                ..old(sched)@
            }),
    {
        self.inner.release(sched);
    }

    /// Whether a critical section is open.
    pub fn is_open(&self) -> (b: bool)
        ensures
            b == self@.open,
    {
        self.inner.is_open()
    }

    /// Notifications posted and not yet consumed, without those pending.
    pub fn count(&self) -> (n: usize)
        ensures
            n == self@.content.count,
    {
        self.inner.peek().count
    }

    /// Notifications recorded while a critical section was open and not yet
    /// merged.
    pub fn pending_count(&self) -> (n: usize)
        ensures
            n == self@.content.pending_count,
    {
        self.inner.peek().pending_count.get()
    }

    /// The task parked on the mailbox, if any.
    pub fn wait_task(&self) -> (t: Option<TaskId>)
        ensures
            t == self@.content.wait_task,
    {
        self.inner.peek().wait_task
    }

    /// Whether the running task may begin to wait, see
    /// [`can_wait`](SoftLockView::can_wait).
    pub fn ready_to_wait(&self, sched: &Scheduler) -> (b: bool)
        ensures
            b == self@.can_wait(sched@),
    {
        let inner = self.inner.peek();
        !self.inner.is_open() && (inner.wait_task.is_none() || inner.count > 0
            || inner.pending_count.get() > 0)
    }

    /// Waits for a notification, or until `timeout_ms` ticks have passed.
    ///
    /// If a notification is there already, the task consumes it and the wait
    /// is over: the result is `Done(true)`. Otherwise the running task is
    /// registered as the waiter, blocked, and put into the sleep queue to
    /// wake at the current tick plus `timeout_ms`. The result is then `Park`:
    /// the task must yield, and call
    /// [`resume_wait_until_timeout`](Self::resume_wait_until_timeout) once
    /// it runs again.
    ///
    /// Only a task may wait, and only one at a time: the call is an error
    /// while another task is parked on the mailbox.
    pub fn wait_until_timeout(&mut self, sched: &mut Scheduler, timeout_ms: u32) -> (step: Step<
        bool,
        (),
    >)
        requires
            old(self).wf(),
            old(sched).wf(),
            old(sched)@.task_context(),
            old(sched)@.suspended < usize::MAX,
            old(self)@.can_wait(old(sched)@),
        ensures
            final(self).wf(),
            final(sched).wf(),
            (final(self)@, final(sched)@, step) == old(self)@.awaited(old(sched)@, timeout_ms),
    {
        let full_access = self.inner.must_with_full_access(sched);
        let step = if full_access.count > 0 {
            full_access.count = full_access.count - 1;
            Step::Done(true)
        } else {
            full_access.task_notified = false;
            let me = sched.current().unwrap();
            sched.block_current();
            full_access.wait_task = Some(me);
            let tick = sched.get_tick();
            let wake_at_tick = if timeout_ms as u64 <= u64::MAX - tick {
                tick + timeout_ms as u64
            } else {
                u64::MAX
            };
            sched.add_task_to_sleep_queue(me, wake_at_tick);
            Step::Park(())
        };
        self.inner.release(sched);
        step
    }

    /// Completes a wait after the parked task was chosen to run again.
    /// Clears the waiter slot and returns whether the task was woken by a
    /// notification (`true`) or by the timeout (`false`).
    pub fn resume_wait_until_timeout(&mut self, sched: &mut Scheduler) -> (notified: bool)
        requires
            old(self).wf(),
            old(sched).wf(),
            old(sched)@.task_context(),
            old(sched)@.suspended < usize::MAX,
            !old(self)@.open,
        ensures
            final(self).wf(),
            final(sched).wf(),
            (final(self)@, final(sched)@, notified) == old(self)@.resumed(old(sched)@),
    {
        let full_access = self.inner.must_with_full_access(sched);
        let _ = full_access.wait_task.take();
        let notified = full_access.task_notified;
        self.inner.release(sched);
        notified
    }

    /// Waits for a notification without a timeout of its own. The wait is
    /// made of rounds of [`WAIT_ROUND_TICKS`] ticks each; the result and the
    /// effect are those of
    /// [`wait_until_timeout`](Self::wait_until_timeout) with that timeout.
    /// After `Park` the task must yield, and call
    /// [`resume_wait`](Self::resume_wait) once it runs again.
    pub fn wait(&mut self, sched: &mut Scheduler) -> (step: Step<(), ()>)
        requires
            old(self).wf(),
            old(sched).wf(),
            old(sched)@.task_context(),
            old(sched)@.suspended < usize::MAX,
            old(self)@.can_wait(old(sched)@),
        ensures
            final(self).wf(),
            final(sched).wf(),
            (final(self)@, final(sched)@) == (
                old(self)@.awaited(old(sched)@, WAIT_ROUND_TICKS).0,
                old(self)@.awaited(old(sched)@, WAIT_ROUND_TICKS).1,
            ),
            (step is Done) == (old(self)@.awaited(old(sched)@, WAIT_ROUND_TICKS).2 is Done),
    {
        match self.wait_until_timeout(sched, WAIT_ROUND_TICKS) {
            Step::Done(_) => Step::Done(()),
            Step::Park(_) => Step::Park(()),
        }
    }

    /// Continues an unbounded wait after the parked task was chosen to run
    /// again. If the task was woken by a notification the wait is over.
    /// If it was woken because the round timed out, the next round begins:
    /// the task is parked once more and must yield again.
    pub fn resume_wait(&mut self, sched: &mut Scheduler) -> (step: Step<(), ()>)
        requires
            old(self).wf(),
            old(sched).wf(),
            old(sched)@.task_context(),
            old(sched)@.suspended < usize::MAX,
            !old(self)@.open,
        ensures
            final(self).wf(),
            final(sched).wf(),
            ({
                let (m, s, notified) = old(self)@.resumed(old(sched)@);
                if notified {
                    step is Done && final(self)@ == m && final(sched)@ == s
                } else {
                    &&& (step is Done) == (m.awaited(s, WAIT_ROUND_TICKS).2 is Done)
                    &&& final(self)@ == m.awaited(s, WAIT_ROUND_TICKS).0
                    &&& final(sched)@ == m.awaited(s, WAIT_ROUND_TICKS).1
                }
            }),
    {
        if self.resume_wait_until_timeout(sched) {
            Step::Done(())
        } else {
            self.wait(sched)
        }
    }

    /// Posts a notification. Never blocks; may be called by a task and by an
    /// interrupt handler, at any instant.
    ///
    /// With full access: a parked task is taken out of the sleep queue, made
    /// ready and told that it was notified; without a parked task the
    /// notification is counted. While another context is in the middle of a
    /// critical section the notification is recorded as pending, and the
    /// next context with full access merges it.
    pub fn notify_allow_isr(&mut self, sched: &mut Scheduler)
        requires
            old(self).wf(),
            old(sched).wf(),
            old(sched)@.suspended < usize::MAX,
        ensures
            final(self).wf(),
            final(sched).wf(),
            (final(self)@, final(sched)@) == old(self)@.notified(old(sched)@),
    {
        match self.inner.with_access(sched) {
            Access::Full { full_access } => {
                match full_access.wait_task.take() {
                    Some(wait_task) => {
                        sched.remove_task_from_sleep_queue_allow_isr(wait_task);
                        full_access.task_notified = true;
                    },
                    None => {
                        if full_access.count < usize::MAX {
                            full_access.count = full_access.count + 1;
                        }
                        full_access.task_notified = true;
                    },
                }
                self.inner.release(sched);
            },
            Access::PendOnly { pend_access } => {
                pend_access.post();
            },
        }
    }
}

/// Notifications are kept until they are consumed: after `n` notifications
/// on a mailbox without a waiting task, the next `m` waits, for any `m` up to
/// `n`, are each over at once with the answer "notified", the scheduler is
/// untouched, and `n - m` notifications more than before are left.
///
/// The counter stops at the largest `usize`, so the law speaks of mailboxes
/// whose counter has room for the `n` notifications.
pub proof fn lemma_notifications_are_kept(
    mailbox: SoftLockView<MailboxState>,
    s: SchedulerView,
    n: nat,
    m: nat,
    timeout_ms: u32,
)
    requires
        mailbox.content.wf(),
        !mailbox.open,
        mailbox.content.wait_task.is_none(),
        m <= n,
        mailbox.credit() + n <= usize::MAX,
    ensures
        ({
            let (posted, s1) = mailbox.notified_times(s, n);
            let (last, s2, all_notified) = posted.awaited_times(s1, timeout_ms, m);
            &&& all_notified
            &&& s1 == s
            &&& s2 == s
            &&& last.content.wf()
            &&& last.content.wait_task.is_none()
            &&& last.credit() == mailbox.credit() + n - m
        }),
{
    lemma_notified_times(mailbox, s, n);
    let (posted, s1) = mailbox.notified_times(s, n);
    lemma_awaited_times(posted, s1, timeout_ms, m);
}

/// Each of `n` notifications on a mailbox without a waiting task adds one to
/// what is counted or pending, and leaves the scheduler alone.
pub proof fn lemma_notified_times(mailbox: SoftLockView<MailboxState>, s: SchedulerView, n: nat)
    requires
        mailbox.content.wf(),
        !mailbox.open,
        mailbox.content.wait_task.is_none(),
        mailbox.credit() + n <= usize::MAX,
    ensures
        ({
            let (posted, s1) = mailbox.notified_times(s, n);
            &&& s1 == s
            &&& posted.content.wf()
            &&& !posted.open
            &&& posted.content.wait_task.is_none()
            &&& posted.credit() == mailbox.credit() + n
        }),
    decreases n,
{
    if n > 0 {
        let (next, s1) = mailbox.notified(s);
        lemma_notified_times(next, s1, (n - 1) as nat);
    }
}

/// While at least `m` notifications are counted or pending and no task is
/// parked, `m` waits in a row are each over at once, consume one
/// notification each, and leave the scheduler alone.
pub proof fn lemma_awaited_times(
    mailbox: SoftLockView<MailboxState>,
    s: SchedulerView,
    timeout_ms: u32,
    m: nat,
)
    requires
        mailbox.content.wf(),
        !mailbox.open,
        mailbox.content.wait_task.is_none(),
        m <= mailbox.credit() <= usize::MAX,
    ensures
        ({
            let (last, s1, all_notified) = mailbox.awaited_times(s, timeout_ms, m);
            &&& all_notified
            &&& s1 == s
            &&& last.content.wf()
            &&& !last.open
            &&& last.content.wait_task.is_none()
            &&& last.credit() == mailbox.credit() - m
        }),
    decreases m,
{
    if m > 0 {
        let (next, s1, step) = mailbox.awaited(s, timeout_ms);
        lemma_awaited_times(next, s1, timeout_ms, (m - 1) as nat);
    }
}

/// A mailbox has one waiter at most. Once a task is parked on it, no task
/// may begin to wait, whatever the scheduler does, until the parked task has
/// been notified or has resumed.
pub proof fn lemma_parked_waiter_excludes_others(
    mailbox: SoftLockView<MailboxState>,
    s: SchedulerView,
    timeout_ms: u32,
    later: SchedulerView,
)
    requires
        mailbox.content.wf(),
        mailbox.can_wait(s),
        mailbox.awaited(s, timeout_ms).2 == Step::<bool, ()>::Park(()),
    ensures
        s.current.is_some() ==> mailbox.awaited(s, timeout_ms).0.content.wait_task == s.current,
        !mailbox.awaited(s, timeout_ms).0.can_wait(later),
{
}

/// Whichever of timeout and notification comes first decides a wait, and
/// the other has no part in it. A notification that finds the task parked
/// is handed to it: the wait ends as notified and nothing is counted. A
/// notification that comes after the task has resumed is counted for the
/// next wait.
pub proof fn lemma_wake_is_decided_once(
    mailbox: SoftLockView<MailboxState>,
    s: SchedulerView,
    later: SchedulerView,
)
    requires
        mailbox.content.wf(),
        !mailbox.open,
        mailbox.content.wait_task.is_some(),
        mailbox.content.pending_count == 0,
        !mailbox.content.task_notified,
    ensures
        ({
            let (handed, s1) = mailbox.notified(s);
            let (after, _, answer) = handed.resumed(later);
            &&& s1 == s.awoken(mailbox.content.wait_task.unwrap())
            &&& answer
            &&& after.credit() == 0
            &&& after.content.wait_task.is_none()
        }),
        ({
            let (after, s1, answer) = mailbox.resumed(s);
            let (counted, s2) = after.notified(later);
            &&& !answer
            &&& s1 == s
            &&& s2 == later
            &&& counted.content.count == 1
            &&& counted.content.wait_task.is_none()
        }),
{
}

/// A notification that arrives while a critical section is open neither
/// waits nor is lost. It touches nothing but the pending counter, and the
/// next context that is granted full access finds it merged: counted, or
/// handed to the parked task, which is woken.
///
/// The counter stops at the largest `usize`, so the law speaks of mailboxes
/// whose counter has room for the notification.
pub proof fn lemma_notification_in_open_section_is_merged(
    mailbox: SoftLockView<MailboxState>,
    s: SchedulerView,
    later: SchedulerView,
)
    requires
        mailbox.content.wf(),
        mailbox.open,
        mailbox.credit() + 1 <= usize::MAX,
    ensures
        ({
            let (recorded, s1) = mailbox.notified(s);
            let (merged, s2) = recorded.left().entered(later);
            &&& s1 == s
            &&& recorded == (SoftLockView {
                content: MailboxState {
                    pending_count: mailbox.content.pending_count + 1,
                    ..mailbox.content
                },
                ..mailbox
            })
            &&& merged.content.wf()
            &&& merged.content.pending_count == 0
            &&& merged.content.wait_task.is_none()
            &&& match mailbox.content.wait_task {
                Some(t) => {
                    &&& merged.content.task_notified
                    &&& merged.content.count == mailbox.credit()
                    &&& s2 == later.awoken(t)
                },
                None => {
                    &&& merged.content.count == mailbox.credit() + 1
                    &&& s2 == later
                },
            }
        }),
{
}

/// A wait on a mailbox without notifications blocks for the time of its
/// timeout and then ends as not notified: the task is parked, stays blocked
/// through the next `timeout_ms - 1` ticks, is ready after the tick that
/// follows, and learns on resuming that it timed out.
///
/// The tick counter stops at its largest value, so the law speaks of waits
/// whose deadline the counter can reach.
pub proof fn lemma_unnotified_wait_times_out(
    mailbox: SoftLockView<MailboxState>,
    s: SchedulerView,
    timeout_ms: u32,
    n: nat,
)
    requires
        mailbox.content.wf(),
        !mailbox.open,
        mailbox.content.wait_task.is_none(),
        mailbox.credit() == 0,
        s.wf(),
        s.task_context(),
        0 < timeout_ms,
        s.tick + timeout_ms <= u64::MAX,
        n <= timeout_ms,
    ensures
        ({
            let me = s.current.unwrap();
            let (parked, s1, step) = mailbox.awaited(s, timeout_ms);
            let later = s1.ticked_times(n);
            &&& step == Step::<bool, ()>::Park(())
            &&& parked.content.wait_task == Some(me)
            &&& s1.tasks[me as int].state == TaskState::Blocked
            &&& later.tick == s.tick + n
            &&& n < timeout_ms ==> later.tasks[me as int].state == TaskState::Blocked
            &&& n == timeout_ms ==> later.tasks[me as int].state == TaskState::Ready
            &&& !parked.resumed(later).2
            &&& parked.resumed(later).0.content.wait_task.is_none()
        }),
{
    let me = s.current.unwrap();
    let (parked, s1, step) = mailbox.awaited(s, timeout_ms);
    let blocked = s.with_state(me, TaskState::Blocked);
    let entry = Entry { key: deadline(s.tick, timeout_ms), task: me };
    lemma_without_keeps_order(s.sleepers, me);
    lemma_placed_keeps_order(without(s.sleepers, me), entry);
    lemma_placed_is_stable(without(s.sleepers, me), entry);
    assert(s1 == blocked.asleep(me, entry.key));
    assert(s1.sleeps_until(me, (s.tick + timeout_ms) as u64));
    assert forall|u: TaskId|
        u < s1.tasks.len() && (#[trigger] s1.tasks[u as int]).state
            == TaskState::Running implies s1.current == Some(u) by {
        assert(s.tasks[u as int].state == TaskState::Running);
    }
    lemma_sleeper_wakes_on_time(s1, me, timeout_ms as nat, n);
}

} // verus!
