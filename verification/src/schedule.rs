//! The scheduler: task table, tick counter, sleep queue and the choice of the
//! task that runs next.
//!
//! The scheduler decides and records; it does not switch contexts. Where an
//! operation parks the running task, the platform performs the trap, calls
//! [`Scheduler::yield_current`] to learn which task runs next, and resumes
//! that task.

use vstd::prelude::*;
use crate::queue::{distinct, holds, lemma_holds_push, lemma_rank_splits, lemma_skip_keeps_order,
    lemma_without_keeps_order, placed, rank, sorted, without, Entry, OrderedQueue};
use crate::task::{Task, TaskId, TaskState};

verus! {

/// How a blocking operation ended.
#[derive(PartialEq, Eq, Debug)]
pub enum Step<D, P> {
    /// The operation is complete, with its result.
    Done(D),
    /// The running task has been parked and must give up the processor. The
    /// payload is what the caller keeps until the task runs again.
    Park(P),
}

/// The scheduler as contracts speak of it.
pub struct SchedulerView {
    /// The task table. A task's identifier is its index.
    pub tasks: Seq<Task>,
    /// The task that owns the processor, if any.
    pub current: Option<TaskId>,
    /// Ticks counted so far. One tick is one millisecond by convention.
    pub tick: u64,
    /// The sleep queue: tasks keyed by the tick at which they wake.
    pub sleepers: Seq<Entry>,
    /// How many critical sections currently keep the scheduler from
    /// switching tasks.
    pub suspended: nat,
    /// How many interrupt handlers are currently active, one inside another.
    pub isr_depth: nat,
}

impl SchedulerView {
    /// The sleep queue is in order, no task sleeps twice, every task has an
    /// identifier, and no task but the current one is running.
    pub open spec fn wf(self) -> bool {
        &&& sorted(self.sleepers)
        &&& distinct(self.sleepers)
        &&& self.tasks.len() <= usize::MAX
        &&& self.current matches Some(c) ==> c < self.tasks.len()
        &&& forall|t: TaskId|
            t < self.tasks.len() && (#[trigger] self.tasks[t as int]).state == TaskState::Running
                ==> self.current == Some(t)
    }

    /// Whether `t` names a task.
    pub open spec fn valid(self, t: TaskId) -> bool {
        t < self.tasks.len()
    }

    /// Whether the caller is a task: no interrupt handler is active and the
    /// current task is running.
    pub open spec fn task_context(self) -> bool {
        &&& self.isr_depth == 0
        &&& self.current matches Some(c)
        &&& c < self.tasks.len()
        &&& self.tasks[c as int].state == TaskState::Running
    }

    /// The scheduler with one more task at the end of the table.
    pub open spec fn spawned(self, task: Task) -> SchedulerView {
        SchedulerView { tasks: self.tasks.push(task), ..self }
    }

    /// The scheduler with task `t` in another state. Nothing changes where
    /// `t` names no task.
    pub open spec fn with_state(self, t: TaskId, state: TaskState) -> SchedulerView {
        if t < self.tasks.len() {
            SchedulerView {
                tasks: self.tasks.update(t as int, self.tasks[t as int].with_state(state)),
                ..self
            }
        } else {
            self
        }
    }

    /// The scheduler after task `t` was made ready. Only a blocked task
    /// becomes ready; any other is left as it is.
    pub open spec fn readied(self, t: TaskId) -> SchedulerView {
        if t < self.tasks.len() && self.tasks[t as int].state == TaskState::Blocked {
            self.with_state(t, TaskState::Ready)
        } else {
            self
        }
    }

    /// The scheduler after task `t` was put to sleep until `wake_tick`.
    pub open spec fn asleep(self, t: TaskId, wake_tick: u64) -> SchedulerView {
        SchedulerView {
            sleepers: placed(without(self.sleepers, t), Entry { key: wake_tick, task: t }),
            ..self
        }
    }

    /// The scheduler after task `t` was woken before its time: where it
    /// sleeps, it leaves the sleep queue and becomes ready; where it does
    /// not, nothing changes.
    pub open spec fn awoken(self, t: TaskId) -> SchedulerView {
        if holds(self.sleepers, t) {
            (SchedulerView { sleepers: without(self.sleepers, t), ..self }).readied(t)
        } else {
            self
        }
    }

    /// The tick that follows the current one. The counter stops at its
    /// largest value.
    pub open spec fn next_tick(self) -> u64 {
        if self.tick < u64::MAX {
            (self.tick + 1) as u64
        } else {
            self.tick
        }
    }

    /// The number of sleepers that are due at tick `now`.
    pub open spec fn due(self, now: u64) -> int {
        rank(self.sleepers, now)
    }

    /// The scheduler after every task of `woken` was made ready. As in
    /// [`readied`](Self::readied), only blocked tasks change.
    pub open spec fn readied_all(self, woken: Seq<Entry>) -> SchedulerView {
        SchedulerView {
            tasks: Seq::new(
                self.tasks.len(),
                |t: int|
                    if self.tasks[t].state == TaskState::Blocked && holds(woken, t as TaskId) {
                        self.tasks[t].with_state(TaskState::Ready)
                    } else {
                        self.tasks[t]
                    },
            ),
            ..self
        }
    }

    /// The scheduler one tick later: every sleeper whose wake tick has been
    /// reached leaves the sleep queue, and becomes ready if it is blocked.
    pub open spec fn ticked(self) -> SchedulerView {
        let now = self.next_tick();
        SchedulerView {
            tick: now,
            sleepers: self.sleepers.skip(self.due(now)),
            ..self.readied_all(self.sleepers.take(self.due(now)))
        }
    }

    /// The scheduler `n` ticks later.
    pub open spec fn ticked_times(self, n: nat) -> SchedulerView
        decreases n,
    {
        if n == 0 {
            self
        } else {
            self.ticked().ticked_times((n - 1) as nat)
        }
    }

    /// Whether task `t` is in the sleep queue, to wake at `wake_tick`.
    pub open spec fn sleeps_until(self, t: TaskId, wake_tick: u64) -> bool {
        exists|i: int|
            0 <= i < self.sleepers.len() && self.sleepers[i] == (Entry { key: wake_tick, task: t })
    }

    /// The scheduler after the current task, if it is running, went back to
    /// the ready tasks.
    pub open spec fn demoted(self) -> SchedulerView {
        match self.current {
            Some(c) if c < self.tasks.len() && self.tasks[c as int].state == TaskState::Running => {
                self.with_state(c, TaskState::Ready)
            },
            _ => self,
        }
    }

    /// Whether task `t` is ready.
    pub open spec fn ready(self, t: TaskId) -> bool {
        t < self.tasks.len() && self.tasks[t as int].state == TaskState::Ready
    }

    /// Whether `t` is the ready task to run next: no ready task has a lower
    /// priority number, and none with the same number has a lower identifier.
    pub open spec fn is_next(self, t: TaskId) -> bool {
        &&& self.ready(t)
        &&& forall|u: TaskId| #[trigger]
            self.ready(u) ==> self.tasks[t as int].precedes(t, self.tasks[u as int], u)
    }

    /// The verdict of the scheduler: `next` is the ready task to run, or
    /// there is no ready task and `next` is `None`.
    pub open spec fn chooses(self, next: Option<TaskId>) -> bool {
        match next {
            Some(t) => self.is_next(t),
            None => forall|u: TaskId| !#[trigger] self.ready(u),
        }
    }

    /// The scheduler after the processor was given to `next`.
    pub open spec fn dispatched(self, next: Option<TaskId>) -> SchedulerView {
        match next {
            Some(t) => SchedulerView {
                current: Some(t),
                ..self.with_state(t, TaskState::Running)
            },
            None => SchedulerView { current: None, ..self },
        }
    }

    /// The scheduler after the current task ended: a restartable task is
    /// ready again, any other is terminated.
    pub open spec fn ended(self) -> SchedulerView {
        match self.current {
            Some(c) if c < self.tasks.len() => {
                if self.tasks[c as int].restartable {
                    self.with_state(c, TaskState::Ready)
                } else {
                    self.with_state(c, TaskState::Terminated)
                }
            },
            _ => self,
        }
    }
}

/// Task table, tick counter and sleep queue of one processor.
pub struct Scheduler {
    tasks: Vec<Task>,
    current: Option<TaskId>,
    tick: u64,
    sleep_queue: OrderedQueue,
    suspended: usize,
    isr_depth: usize,
}

impl View for Scheduler {
    type V = SchedulerView;

    closed spec fn view(&self) -> SchedulerView {
        SchedulerView {
            tasks: self.tasks@,
            current: self.current,
            tick: self.tick,
            sleepers: self.sleep_queue@,
            suspended: self.suspended as nat,
            isr_depth: self.isr_depth as nat,
        }
    }
}

impl Scheduler {
    /// The invariant of the scheduler, see [`SchedulerView::wf`].
    pub open spec fn wf(&self) -> bool {
        self@.wf()
    }

    /// A scheduler without tasks, at tick zero.
    pub fn new() -> (s: Scheduler)
        ensures
            s.wf(),
            s@ == (SchedulerView {
                tasks: Seq::<Task>::empty(),
                current: None,
                tick: 0,
                sleepers: Seq::<Entry>::empty(),
                suspended: 0,
                isr_depth: 0,
            }),
    {
        Scheduler {
            tasks: Vec::new(),
            current: None,
            tick: 0,
            sleep_queue: OrderedQueue::new(),
            suspended: 0,
            isr_depth: 0,
        }
    }

    /// Adds a ready task and returns its identifier.
    pub fn spawn(&mut self, entry: usize, priority: u8, restartable: bool) -> (id: TaskId)
        requires
            old(self).wf(),
        ensures
            final(self).wf(),
            id == old(self)@.tasks.len(),
            final(self)@ == old(self)@.spawned(
                Task { entry, priority, state: TaskState::Ready, restartable },
            ),
    {
        let id = self.tasks.len();
        self.tasks.push(Task::new(entry, priority, restartable));
        // The length of the table is a `usize`, so the new task has an identifier.
        let _ = self.tasks.len();
        id
    }

    /// Number of tasks in the table.
    pub fn task_count(&self) -> (n: usize)
        ensures
            n == self@.tasks.len(),
    {
        self.tasks.len()
    }

    /// The task that owns the processor, if any.
    pub fn current(&self) -> (c: Option<TaskId>)
        ensures
            c == self@.current,
    {
        self.current
    }

    /// The table entry of task `t`, if there is such a task.
    pub fn task(&self, t: TaskId) -> (task: Option<Task>)
        ensures
            task == (if self@.valid(t) { Some(self@.tasks[t as int]) } else { None }),
    {
        if t < self.tasks.len() {
            Some(self.tasks[t])
        } else {
            None
        }
    }

    /// The state of task `t`, if there is such a task.
    pub fn state_of(&self, t: TaskId) -> (state: Option<TaskState>)
        ensures
            state == (if self@.valid(t) { Some(self@.tasks[t as int].state) } else { None }),
    {
        if t < self.tasks.len() {
            Some(self.tasks[t].state)
        } else {
            None
        }
    }

    /// Whether the caller is a task, see [`SchedulerView::task_context`].
    pub fn in_task_context(&self) -> (b: bool)
        requires
            self.wf(),
        ensures
            b == self@.task_context(),
    {
        if self.isr_depth != 0 {
            return false;
        }
        match self.current {
            Some(c) => matches!(self.tasks[c].state, TaskState::Running),
            None => false,
        }
    }

    /// Whether an interrupt handler is active.
    pub fn in_isr(&self) -> (b: bool)
        ensures
            b == (self@.isr_depth > 0),
    {
        self.isr_depth > 0
    }

    /// Records that an interrupt handler has been entered.
    pub fn enter_isr(&mut self)
        requires
            old(self).wf(),
            old(self)@.isr_depth < usize::MAX,
        ensures
            final(self).wf(),
            final(self)@ == (SchedulerView { isr_depth: old(self)@.isr_depth + 1, ..old(self)@ }),
    {
        self.isr_depth = self.isr_depth + 1;
    }

    /// Records that the innermost interrupt handler has returned.
    pub fn exit_isr(&mut self)
        requires
            old(self).wf(),
            old(self)@.isr_depth > 0,
        ensures
            final(self).wf(),
            final(self)@ == (SchedulerView {
                isr_depth: (old(self)@.isr_depth - 1) as nat,
                ..old(self)@
            }),
    {
        self.isr_depth = self.isr_depth - 1;
    }

    /// Whether a critical section currently keeps the scheduler from
    /// switching tasks.
    pub fn is_suspended(&self) -> (b: bool)
        ensures
            b == (self@.suspended > 0),
    {
        self.suspended > 0
    }

    /// Whether one more critical section can be opened: the nesting counter
    /// has room.
    pub fn can_suspend(&self) -> (b: bool)
        ensures
            b == (self@.suspended < usize::MAX),
    {
        self.suspended < usize::MAX
    }

    /// Keeps the scheduler from switching tasks until the matching
    /// [`resume`](Self::resume). Interrupts stay enabled.
    pub fn suspend(&mut self)
        requires
            old(self).wf(),
            old(self)@.suspended < usize::MAX,
        ensures
            final(self).wf(),
            final(self)@ == (SchedulerView { suspended: old(self)@.suspended + 1, ..old(self)@ }),
    {
        self.suspended = self.suspended + 1;
    }

    /// Ends the innermost suspension.
    pub fn resume(&mut self)
        requires
            old(self).wf(),
            old(self)@.suspended > 0,
        ensures
            final(self).wf(),
            final(self)@ == (SchedulerView {
                suspended: (old(self)@.suspended - 1) as nat,
                ..old(self)@
            }),
    {
        self.suspended = self.suspended - 1;
    }

    fn set_state(&mut self, t: TaskId, state: TaskState)
        requires
            old(self).wf(),
            state != TaskState::Running,
        ensures
            final(self).wf(),
            final(self)@ == old(self)@.with_state(t, state),
    {
        if t < self.tasks.len() {
            let task = self.tasks[t];
            self.tasks.set(
                t,
                Task { entry: task.entry, priority: task.priority, state, restartable: task.restartable },
            );
        }
    }

    /// Changes the priority of the running task. Fails, and changes nothing,
    /// where the caller is not a task.
    pub fn change_current_priority(&mut self, priority: u8) -> (r: Result<(), ()>)
        requires
            old(self).wf(),
        ensures
            final(self).wf(),
            r.is_ok() == old(self)@.task_context(),
            !old(self)@.task_context() ==> final(self)@ == old(self)@,
            old(self)@.task_context() ==> final(self)@ == (SchedulerView {
                tasks: old(self)@.tasks.update(
                    old(self)@.current.unwrap() as int,
                    old(self)@.tasks[old(self)@.current.unwrap() as int].with_priority(priority),
                ),
                ..old(self)@
            }),
    {
        if !self.in_task_context() {
            return Err(());
        }
        let c = self.current.unwrap();
        let task = self.tasks[c];
        self.tasks.set(
            c,
            Task { entry: task.entry, priority, state: task.state, restartable: task.restartable },
        );
        Ok(())
    }

    /// Marks the running task as blocked. The task keeps the processor until
    /// the platform calls [`yield_current`](Self::yield_current).
    pub fn block_current(&mut self)
        requires
            old(self).wf(),
            old(self)@.task_context(),
        ensures
            final(self).wf(),
            final(self)@ == old(self)@.with_state(old(self)@.current.unwrap(), TaskState::Blocked),
    {
        let c = self.current.unwrap();
        self.set_state(c, TaskState::Blocked);
    }

    /// Makes a blocked task ready. Any other task, and an identifier that
    /// names no task, is left alone. May be called from an interrupt handler.
    pub fn make_ready(&mut self, t: TaskId)
        requires
            old(self).wf(),
        ensures
            final(self).wf(),
            final(self)@ == old(self)@.readied(t),
    {
        if t < self.tasks.len() {
            if matches!(self.tasks[t].state, TaskState::Blocked) {
                self.set_state(t, TaskState::Ready);
            }
        }
    }

    /// The current tick.
    pub fn get_tick(&self) -> (tick: u64)
        ensures
            tick == self@.tick,
    {
        self.tick
    }

    /// Whether task `t` is in the sleep queue.
    pub fn is_sleeping(&self, t: TaskId) -> (b: bool)
        ensures
            b == holds(self@.sleepers, t),
    {
        self.sleep_queue.contains(t)
    }

    /// Number of tasks in the sleep queue.
    pub fn sleeper_count(&self) -> (n: usize)
        ensures
            n == self@.sleepers.len(),
    {
        self.sleep_queue.len()
    }

    /// Puts task `t` into the sleep queue, to wake at `wake_tick`. A task
    /// that sleeps already gets the new wake tick, so that no task is ever
    /// queued twice.
    pub fn add_task_to_sleep_queue(&mut self, t: TaskId, wake_tick: u64)
        requires
            old(self).wf(),
        ensures
            final(self).wf(),
            final(self)@ == old(self)@.asleep(t, wake_tick),
    {
        self.sleep_queue.insert(t, wake_tick);
    }

    /// Takes task `t` out of the sleep queue before its time and makes it
    /// ready. Where the task does not sleep, because a timeout or an earlier
    /// call has removed it already, nothing happens. May be called from an
    /// interrupt handler.
    pub fn remove_task_from_sleep_queue_allow_isr(&mut self, t: TaskId)
        requires
            old(self).wf(),
        ensures
            final(self).wf(),
            final(self)@ == old(self)@.awoken(t),
    {
        if self.sleep_queue.remove(t) {
            self.make_ready(t);
        }
    }

    /// Counts one tick and wakes every sleeper that is due. Returns how many
    /// tasks left the sleep queue. This is the decision of the tick
    /// interrupt; the platform reschedules afterwards.
    pub fn advance_tick(&mut self) -> (woken: usize)
        requires
            old(self).wf(),
        ensures
            final(self).wf(),
            final(self)@ == old(self)@.ticked(),
            woken == old(self)@.due(old(self)@.next_tick()),
    {
        if self.tick < u64::MAX {
            self.tick = self.tick + 1;
        }
        let due = self.sleep_queue.count_up_to(self.tick);
        proof {
            lemma_rank_splits(self.sleep_queue@, self.tick);
        }
        let mut sleepers = OrderedQueue::new();
        std::mem::swap(&mut self.sleep_queue, &mut sleepers);
        let woken = self.wake_first(&mut sleepers, due);
        std::mem::swap(&mut self.sleep_queue, &mut sleepers);
        woken
    }

    /// Takes up to `n` tasks from the front of `queue` and makes each of them
    /// ready. Returns how many tasks left the queue.
    pub fn wake_first(&mut self, queue: &mut OrderedQueue, n: usize) -> (woken: usize)
        requires
            old(self).wf(),
            old(queue).wf(),
        ensures
            final(self).wf(),
            final(queue).wf(),
            woken == (if n <= old(queue)@.len() { n as int } else { old(queue)@.len() as int }),
            final(queue)@ == old(queue)@.skip(woken as int),
            final(self)@ == old(self)@.readied_all(old(queue)@.take(woken as int)),
    {
        let ghost before = self@;
        let ghost q = queue@;
        let mut woken: usize = 0;
        while woken < n && !queue.is_empty()
            invariant
                self.wf(),
                queue.wf(),
                before.wf(),
                sorted(q),
                distinct(q),
                0 <= woken <= n,
                woken <= q.len(),
                queue@ == q.skip(woken as int),
                self@.current == before.current,
                self@.tick == before.tick,
                self@.sleepers == before.sleepers,
                self@.suspended == before.suspended,
                self@.isr_depth == before.isr_depth,
                self@.tasks.len() == before.tasks.len(),
                forall|t: TaskId|
                    t < before.tasks.len() ==> #[trigger] self@.tasks[t as int] == (if before.tasks[t as int].state
                        == TaskState::Blocked && holds(q.take(woken as int), t) {
                        before.tasks[t as int].with_state(TaskState::Ready)
                    } else {
                        before.tasks[t as int]
                    }),
            decreases n - woken,
        {
            let e = queue.pop_front().unwrap();
            let ghost mid = self@;
            self.make_ready(e.task);
            proof {
                let w = woken as int;
                assert(e == q[w]);
                assert(q.take(w + 1) == q.take(w).push(e));
                assert forall|t: TaskId| holds(q.take(w + 1), t) <==> (t == e.task || holds(
                    q.take(w),
                    t,
                )) by {
                    lemma_holds_push(q.take(w), e, t);
                }
                assert(!holds(q.take(w), e.task)) by {
                    if holds(q.take(w), e.task) {
                        let i = choose|i: int| 0 <= i < w && q.take(w)[i].task == e.task;
                        assert(q[i].task == q[w].task);
                    }
                }
                assert(q.skip(w).skip(1) == q.skip(w + 1));
                assert forall|t: TaskId| t < before.tasks.len() implies #[trigger] self@.tasks[t as int]
                    == (if before.tasks[t as int].state == TaskState::Blocked && holds(
                    q.take(w + 1),
                    t,
                ) {
                    before.tasks[t as int].with_state(TaskState::Ready)
                } else {
                    before.tasks[t as int]
                }) by {
                    assert(mid.tasks[t as int] == (if before.tasks[t as int].state
                        == TaskState::Blocked && holds(q.take(w), t) {
                        before.tasks[t as int].with_state(TaskState::Ready)
                    } else {
                        before.tasks[t as int]
                    }));
                }
            }
            woken = woken + 1;
        }
        proof {
            let r = before.readied_all(q.take(woken as int));
            assert forall|t: int| 0 <= t < before.tasks.len() implies self@.tasks[t] == r.tasks[t] by {
                assert(self@.tasks[(t as TaskId) as int] == self@.tasks[t]);
            }
            assert(self@.tasks =~= r.tasks);
        }
        woken
    }

    /// Chooses the task that runs next and gives it the processor. The
    /// running task goes back to the ready tasks first and is chosen again
    /// if none of the others comes before it. Of the ready tasks the one
    /// with the lowest priority number wins, the lowest identifier among
    /// equals. Returns the chosen task, or `None` where no task is ready;
    /// the processor then idles until an interrupt makes one ready.
    ///
    /// The platform calls this from the yield trap and at the end of an
    /// interrupt that may have made a task ready. It must not be called
    /// while a critical section keeps the scheduler suspended.
    pub fn yield_current(&mut self) -> (next: Option<TaskId>)
        requires
            old(self).wf(),
            old(self)@.suspended == 0,
        ensures
            final(self).wf(),
            old(self)@.demoted().chooses(next),
            final(self)@ == old(self)@.demoted().dispatched(next),
    {
        match self.current {
            Some(c) => {
                if matches!(self.tasks[c].state, TaskState::Running) {
                    self.set_state(c, TaskState::Ready);
                }
            },
            None => {},
        }
        let ghost base = self@;
        assert(base == old(self)@.demoted());
        assert forall|t: TaskId| t < base.tasks.len() implies (#[trigger] base.tasks[t as int]).state
            != TaskState::Running by {
            if old(self)@.tasks[t as int].state == TaskState::Running {
                assert(old(self)@.current == Some(t));
            }
        }
        let mut best: Option<TaskId> = None;
        let mut i: usize = 0;
        while i < self.tasks.len()
            invariant
                self@ == base,
                i <= self.tasks.len(),
                match best {
                    Some(b) => b < i && base.ready(b) && forall|u: TaskId|
                        u < i && #[trigger] base.ready(u) ==> base.tasks[b as int].precedes(
                            b,
                            base.tasks[u as int],
                            u,
                        ),
                    None => forall|u: TaskId| u < i ==> !#[trigger] base.ready(u),
                },
            decreases self.tasks.len() - i,
        {
            if matches!(self.tasks[i].state, TaskState::Ready) {
                match best {
                    Some(b) => {
                        if self.tasks[i].priority < self.tasks[b].priority {
                            best = Some(i);
                        }
                    },
                    None => {
                        best = Some(i);
                    },
                }
            }
            i += 1;
        }
        match best {
            Some(b) => {
                let task = self.tasks[b];
                self.tasks.set(
                    b,
                    Task {
                        entry: task.entry,
                        priority: task.priority,
                        state: TaskState::Running,
                        restartable: task.restartable,
                    },
                );
            },
            None => {},
        }
        self.current = best;
        best
    }

    /// Ends the running task, normally or by an unwind that has released
    /// what the task held. A restartable task is made ready again, to start
    /// afresh from its entry point; any other is terminated. Returns the
    /// entry token of a task that restarts. The task keeps the processor
    /// until the platform calls [`yield_current`](Self::yield_current).
    pub fn end_current(&mut self) -> (restart: Option<usize>)
        requires
            old(self).wf(),
            old(self)@.task_context(),
        ensures
            final(self).wf(),
            final(self)@ == old(self)@.ended(),
            restart == (if old(self)@.tasks[old(self)@.current.unwrap() as int].restartable {
                Some(old(self)@.tasks[old(self)@.current.unwrap() as int].entry)
            } else {
                None
            }),
    {
        let c = self.current.unwrap();
        let task = self.tasks[c];
        if task.restartable {
            self.set_state(c, TaskState::Ready);
            Some(task.entry)
        } else {
            self.set_state(c, TaskState::Terminated);
            None
        }
    }
}

/// One tick keeps the scheduler well formed. A blocked sleeper whose wake
/// tick is reached leaves the sleep queue and is ready; a sleeper whose wake
/// tick lies ahead stays as it is.
pub proof fn lemma_tick_wakes_the_due(s: SchedulerView, t: TaskId, wake_tick: u64)
    requires
        s.wf(),
        s.valid(t),
        s.sleeps_until(t, wake_tick),
    ensures
        s.ticked().wf(),
        s.ticked().tick == s.next_tick(),
        wake_tick <= s.next_tick() ==> !holds(s.ticked().sleepers, t) && (s.tasks[t as int].state
            == TaskState::Blocked ==> s.ticked().tasks[t as int].state == TaskState::Ready),
        wake_tick > s.next_tick() ==> s.ticked().sleeps_until(t, wake_tick) && s.ticked().tasks[t as int]
            == s.tasks[t as int],
{
    let now = s.next_tick();
    let q = s.sleepers;
    let k = rank(q, now);
    let n = s.ticked();
    lemma_rank_splits(q, now);
    lemma_skip_keeps_order(q, k);
    let i = choose|i: int| 0 <= i < q.len() && q[i] == (Entry { key: wake_tick, task: t });
    assert forall|u: TaskId|
        u < n.tasks.len() && (#[trigger] n.tasks[u as int]).state
            == TaskState::Running implies n.current == Some(u) by {
        assert(s.tasks[u as int].state == TaskState::Running);
    }
    if wake_tick <= now {
        assert(i < k);
        assert(q.take(k)[i].task == t);
        if holds(q.skip(k), t) {
            let j = choose|j: int| 0 <= j < q.skip(k).len() && q.skip(k)[j].task == t;
            assert(q[j + k].task == q[i].task);
        }
    } else {
        assert(i >= k);
        assert(n.sleepers[i - k] == q[i]);
        assert(n.sleeps_until(t, wake_tick));
        if holds(q.take(k), t) {
            let j = choose|j: int| 0 <= j < q.take(k).len() && q.take(k)[j].task == t;
            assert(q[j].task == q[i].task);
            assert(false);
        }
        assert(n.tasks[t as int] == s.tasks[t as int]);
    }
}

/// A task that is blocked and sleeps for `timeout` ticks, and that nobody
/// wakes early, stays blocked and asleep through the next `timeout - 1`
/// ticks, and is ready and out of the sleep queue after the tick that
/// follows.
pub proof fn lemma_sleeper_wakes_on_time(s: SchedulerView, t: TaskId, timeout: nat, n: nat)
    requires
        s.wf(),
        s.valid(t),
        s.tasks[t as int].state == TaskState::Blocked,
        s.tick + timeout <= u64::MAX,
        s.sleeps_until(t, (s.tick + timeout) as u64),
        n <= timeout,
        timeout > 0,
    ensures
        s.ticked_times(n).wf(),
        s.ticked_times(n).tick == s.tick + n,
        s.ticked_times(n).valid(t),
        n < timeout ==> s.ticked_times(n).sleeps_until(t, (s.tick + timeout) as u64) && s.ticked_times(
            n,
        ).tasks[t as int].state == TaskState::Blocked,
        n == timeout ==> !holds(s.ticked_times(n).sleepers, t) && s.ticked_times(n).tasks[t as int].state
            == TaskState::Ready,
    decreases n,
{
    if n > 0 {
        lemma_tick_wakes_the_due(s, t, (s.tick + timeout) as u64);
        if timeout > 1 {
            lemma_sleeper_wakes_on_time(s.ticked(), t, (timeout - 1) as nat, (n - 1) as nat);
        } else {
            assert(s.ticked().ticked_times(0) == s.ticked());
        }
    }
}

/// The scheduler has no choice: at most one answer satisfies
/// [`chooses`](SchedulerView::chooses).
pub proof fn lemma_choice_is_unique(s: SchedulerView, a: Option<TaskId>, b: Option<TaskId>)
    requires
        s.chooses(a),
        s.chooses(b),
    ensures
        a == b,
{
    match (a, b) {
        (Some(x), Some(y)) => {
            assert(s.ready(x) && s.ready(y));
        },
        (Some(x), None) => {
            assert(s.ready(x));
        },
        (None, Some(y)) => {
            assert(s.ready(y));
        },
        (None, None) => {},
    }
}

/// Exactly one task runs at a time: after the scheduler has chosen, the
/// chosen task is running and no other task is.
pub proof fn lemma_one_task_runs(s: SchedulerView, next: Option<TaskId>)
    requires
        s.wf(),
        s.demoted().chooses(next),
    ensures
        s.demoted().dispatched(next).wf(),
        next matches Some(t) ==> s.demoted().dispatched(next).tasks[t as int].state
            == TaskState::Running,
        forall|u: TaskId|
            u < s.tasks.len() && Some(u) != next ==> (#[trigger] s.demoted().dispatched(
                next,
            ).tasks[u as int]).state != TaskState::Running,
{
    let d = s.demoted();
    assert forall|u: TaskId| u < d.tasks.len() implies (#[trigger] d.tasks[u as int]).state
        != TaskState::Running by {
        if s.tasks[u as int].state == TaskState::Running {
            assert(s.current == Some(u));
        }
    }
}

/// Waking a task early is idempotent: the second removal from the sleep
/// queue finds nothing to do, and so does a removal that comes after the
/// timeout has taken the task out.
pub proof fn lemma_early_wake_is_idempotent(s: SchedulerView, t: TaskId)
    requires
        s.wf(),
    ensures
        s.awoken(t).wf(),
        !holds(s.awoken(t).sleepers, t),
        s.awoken(t).awoken(t) == s.awoken(t),
        !holds(s.sleepers, t) ==> s.awoken(t) == s,
{
    lemma_without_keeps_order(s.sleepers, t);
    assert forall|u: TaskId|
        u < s.awoken(t).tasks.len() && (#[trigger] s.awoken(t).tasks[u as int]).state
            == TaskState::Running implies s.awoken(t).current == Some(u) by {
        assert(s.tasks[u as int].state == TaskState::Running);
    }
}

/// Tasks move through their states along the edges of the state machine
/// only, see [`TaskState::may_become`]: whatever the scheduler does, it
/// dispatches ready tasks, preempts, blocks or ends the running task, and
/// wakes blocked tasks.
pub proof fn lemma_states_follow_the_state_machine(
    s: SchedulerView,
    t: TaskId,
    other: TaskId,
    woken: Seq<Entry>,
    next: Option<TaskId>,
)
    requires
        s.wf(),
        s.valid(t),
    ensures
        s.tasks[t as int].state.may_become(s.readied(other).tasks[t as int].state),
        s.tasks[t as int].state.may_become(s.awoken(other).tasks[t as int].state),
        s.tasks[t as int].state.may_become(s.readied_all(woken).tasks[t as int].state),
        s.tasks[t as int].state.may_become(s.ticked().tasks[t as int].state),
        s.task_context() ==> s.tasks[t as int].state.may_become(s.ended().tasks[t as int].state),
        s.task_context() ==> s.tasks[t as int].state.may_become(
            s.with_state(s.current.unwrap(), TaskState::Blocked).tasks[t as int].state,
        ),
        s.demoted().chooses(next) ==> s.tasks[t as int].state.may_become(
            s.demoted().dispatched(next).tasks[t as int].state,
        ),
{
    if s.tasks[t as int].state == TaskState::Running {
        assert(s.current == Some(t));
    }
    if s.demoted().chooses(next) {
        if let Some(n) = next {
            assert(s.demoted().ready(n));
        }
    }
}

} // verus!
