//! The channel: a queue of fixed capacity between producers and consumers.
//!
//! A channel is a buffer between two semaphores. One counts the free slots
//! and is where producers wait while the channel is full. The other counts
//! the stored values and is where consumers wait while the channel is empty.

use vstd::prelude::*;
use crate::queue::holds;
use crate::schedule::{Scheduler, SchedulerView, Step};
use crate::sync::semaphore::{lemma_count_stays_in_bounds, lemma_merge_keeps_bounds, Semaphore,
    SemaphoreState};
use crate::sync::soft_lock::SoftLockView;
use crate::task::TaskId;

verus! {

/// The two ends of a channel.
#[derive(Clone, Copy, PartialEq, Eq, Debug, Structural)]
pub enum End {
    /// Where values are put in. Producers wait here for a free slot.
    Producer,
    /// Where values are taken out. Consumers wait here for a value.
    Consumer,
}

/// A channel as contracts speak of it.
pub struct ChannelView<T> {
    /// The semaphore that counts the free slots.
    pub slots: SoftLockView<SemaphoreState>,
    /// The semaphore that counts the stored values.
    pub items: SoftLockView<SemaphoreState>,
    /// The stored values, oldest first.
    pub buffer: Seq<T>,
}

impl<T> ChannelView<T> {
    /// Both semaphores are well formed and bounded by the capacity, and
    /// their counters account for every slot: a slot is free, or recorded as
    /// freed, or holds a value, and every value is counted or recorded.
    pub open spec fn wf(self, capacity: nat) -> bool {
        &&& self.slots.content.wf()
        &&& self.items.content.wf()
        &&& self.slots.content.max == capacity
        &&& self.items.content.max == capacity
        &&& self.slots.content.count + self.slots.content.pending_up + self.buffer.len() == capacity
        &&& self.items.content.count + self.items.content.pending_up == self.buffer.len()
    }

    /// An empty channel with `capacity` free slots.
    pub open spec fn empty(capacity: nat) -> ChannelView<T> {
        ChannelView {
            slots: SoftLockView { open: false, content: SemaphoreState::fresh(capacity, capacity) },
            items: SoftLockView { open: false, content: SemaphoreState::fresh(capacity, 0) },
            buffer: Seq::empty(),
        }
    }

    /// Whether the channel holds as many values as it has slots.
    pub open spec fn full(self, capacity: nat) -> bool {
        self.buffer.len() == capacity
    }

    /// Channel and scheduler after `value` was stored in a slot that the
    /// producer has taken: the value is the newest, and the consumers are
    /// told of it.
    pub open spec fn stored(self, s: SchedulerView, value: T) -> (ChannelView<T>, SchedulerView) {
        let (items, s1) = self.items.upped(s);
        (ChannelView { items, buffer: self.buffer.push(value), ..self }, s1)
    }

    /// Channel and scheduler after the running task offered `value`, and
    /// whether the value was stored. A task that finds no free slot joins
    /// the producers' wait queue and is blocked.
    pub open spec fn produced(self, s: SchedulerView, value: T) -> (ChannelView<T>, SchedulerView, bool) {
        let (slots, s1, got) = self.slots.downed(s);
        let taken = ChannelView { slots, ..self };
        if got {
            (taken.stored(s1, value).0, taken.stored(s1, value).1, true)
        } else {
            (taken, s1, false)
        }
    }

    /// Channel and scheduler after `value` was offered without waiting, and
    /// whether the value was stored.
    pub open spec fn tried_produce(self, s: SchedulerView, value: T) -> (
        ChannelView<T>,
        SchedulerView,
        bool,
    ) {
        let (slots, s1, got) = self.slots.tried_down(s);
        let taken = ChannelView { slots, ..self };
        if got {
            (taken.stored(s1, value).0, taken.stored(s1, value).1, true)
        } else {
            (taken, s1, false)
        }
    }

    /// Channel and scheduler after the running task asked for a value, and
    /// the value if there was one: the oldest leaves, and the producers are
    /// told of the free slot. A task that finds no value joins the
    /// consumers' wait queue and is blocked.
    pub open spec fn consumed(self, s: SchedulerView) -> (ChannelView<T>, SchedulerView, Option<T>) {
        let (items, s1, got) = self.items.downed(s);
        let taken = ChannelView { items, ..self };
        if got {
            let (slots, s2) = self.slots.upped(s1);
            (ChannelView { slots, buffer: self.buffer.skip(1), ..taken }, s2, Some(self.buffer[0]))
        } else {
            (taken, s1, None)
        }
    }

    /// Channel and scheduler after each of `values` was offered without
    /// waiting, the first of them first, and whether all of them were
    /// stored.
    pub open spec fn tried_produce_all(self, s: SchedulerView, values: Seq<T>) -> (
        ChannelView<T>,
        SchedulerView,
        bool,
    )
        decreases values.len(),
    {
        if values.len() == 0 {
            (self, s, true)
        } else {
            let (c, s1, stored) = self.tried_produce(s, values[0]);
            let (last, s2, rest) = c.tried_produce_all(s1, values.skip(1));
            (last, s2, stored && rest)
        }
    }

    /// Channel and scheduler after the running task asked for a value `n`
    /// times in a row, and the values that it got, the first of them first.
    /// A request that finds no value adds nothing to the result.
    pub open spec fn consumed_times(self, s: SchedulerView, n: nat) -> (
        ChannelView<T>,
        SchedulerView,
        Seq<T>,
    )
        decreases n,
    {
        if n == 0 {
            (self, s, Seq::empty())
        } else {
            let (c, s1, got) = self.consumed(s);
            let (last, s2, rest) = c.consumed_times(s1, (n - 1) as nat);
            (
                last,
                s2,
                match got {
                    Some(value) => seq![value] + rest,
                    None => rest,
                },
            )
        }
    }

    /// Channel and scheduler after a critical section was opened at `end`.
    pub open spec fn entered(self, s: SchedulerView, end: End) -> (ChannelView<T>, SchedulerView) {
        match end {
            End::Producer => (ChannelView { slots: self.slots.entered(s).0, ..self }, self.slots.entered(s).1),
            End::Consumer => (ChannelView { items: self.items.entered(s).0, ..self }, self.items.entered(s).1),
        }
    }

    /// The channel after the critical section at `end` was closed.
    pub open spec fn left(self, end: End) -> ChannelView<T> {
        match end {
            End::Producer => ChannelView { slots: SoftLockView { open: false, ..self.slots }, ..self },
            End::Consumer => ChannelView { items: SoftLockView { open: false, ..self.items }, ..self },
        }
    }

    /// Whether a critical section is open at `end`.
    pub open spec fn open_at(self, end: End) -> bool {
        match end {
            End::Producer => self.slots.open,
            End::Consumer => self.items.open,
        }
    }
}

/// A first-in first-out queue of at most `N` values of type `T`.
pub struct Channel<T, const N: usize> {
    slots: Semaphore,
    items: Semaphore,
    buffer: Vec<T>,
}

impl<T, const N: usize> View for Channel<T, N> {
    type V = ChannelView<T>;

    closed spec fn view(&self) -> ChannelView<T> {
        ChannelView { slots: self.slots@, items: self.items@, buffer: self.buffer@ }
    }
}

impl<T, const N: usize> Channel<T, N> {
    /// The invariant of the channel, see [`ChannelView::wf`].
    pub open spec fn wf(&self) -> bool {
        self@.wf(N as nat)
    }

    /// An empty channel.
    pub fn new() -> (channel: Channel<T, N>)
        ensures
            channel.wf(),
            channel@ == ChannelView::<T>::empty(N as nat),
    {
        Channel { slots: Semaphore::new(N, N), items: Semaphore::new(N, 0), buffer: Vec::new() }
    }

    /// The capacity of the channel.
    pub fn capacity(&self) -> (n: usize)
        ensures
            n == N,
    {
        N
    }

    /// Number of stored values.
    pub fn len(&self) -> (n: usize)
        ensures
            n == self@.buffer.len(),
    {
        self.buffer.len()
    }

    /// Whether every slot holds a value.
    pub fn is_full(&self) -> (b: bool)
        ensures
            b == self@.full(N as nat),
    {
        self.buffer.len() == N
    }

    /// Number of producers blocked on the channel.
    pub fn blocked_producers(&self) -> (n: usize)
        ensures
            n == self@.slots.content.waiters.len(),
    {
        self.slots.waiter_count()
    }

    /// Number of consumers blocked on the channel.
    pub fn blocked_consumers(&self) -> (n: usize)
        ensures
            n == self@.items.content.waiters.len(),
    {
        self.items.waiter_count()
    }

    /// Whether a critical section is open at `end`.
    pub fn is_open(&self, end: End) -> (b: bool)
        ensures
            b == self@.open_at(end),
    {
        match end {
            End::Producer => self.slots.is_open(),
            End::Consumer => self.items.is_open(),
        }
    }

    /// Opens a critical section at one end of the channel for the running
    /// task, as the first step of a blocking operation at that end does, and
    /// merges what is pending there.
    pub fn acquire(&mut self, sched: &mut Scheduler, end: End)
        requires
            old(self).wf(),
            old(sched).wf(),
            old(sched)@.task_context(),
            old(sched)@.suspended < usize::MAX,
            !old(self)@.open_at(end),
        ensures
            final(self).wf(),
            final(sched).wf(),
            final(self)@ == old(self)@.entered(old(sched)@, end).0,
            final(sched)@ == (SchedulerView {
                suspended: old(sched)@.suspended + 1,
                ..old(self)@.entered(old(sched)@, end).1
            }),
    {
        match end {
            End::Producer => self.slots.acquire(sched),
            End::Consumer => self.items.acquire(sched),
        }
    }

    /// Closes the critical section that [`acquire`](Self::acquire) opened at
    /// `end`.
    pub fn release(&mut self, sched: &mut Scheduler, end: End)
        requires
            old(self).wf(),
            old(sched).wf(),
            old(self)@.open_at(end),
            old(sched)@.suspended > 0,
        ensures
            final(self).wf(),
            final(sched).wf(),
            final(self)@ == old(self)@.left(end),
            final(sched)@ == (SchedulerView {
                suspended: (old(sched)@.suspended - 1) as nat,
                ..old(sched)@
            }),
    {
        match end {
            End::Producer => self.slots.release(sched),
            End::Consumer => self.items.release(sched),
        }
    }

    /// Stores `value` in a slot that the caller has taken from the free
    /// slots, and tells the consumers.
    fn store(&mut self, sched: &mut Scheduler, value: T)
        requires
            old(sched).wf(),
            old(sched)@.suspended < usize::MAX,
            old(self)@.items.content.wf(),
            old(self)@.slots.content.wf(),
            old(self)@.slots.content.max == N,
            old(self)@.items.content.max == N,
            old(self)@.slots.content.count + old(self)@.slots.content.pending_up + old(
                self,
            )@.buffer.len() + 1 == N,
            old(self)@.items.content.count + old(self)@.items.content.pending_up == old(
                self,
            )@.buffer.len(),
        ensures
            final(self).wf(),
            final(sched).wf(),
            (final(self)@, final(sched)@) == old(self)@.stored(old(sched)@, value),
    {
        self.buffer.push(value);
        self.items.up(sched);
    }

    /// Puts `value` into the channel on behalf of the running task.
    ///
    /// If a slot is free the value becomes the newest of the channel, a
    /// waiting consumer is woken, and the result is `Done`. Otherwise the
    /// task joins the producers' wait queue at the place of its priority and
    /// is blocked; the result is `Park` with the value. The task must then
    /// yield, and call `produce` again with the value once a consumer has
    /// freed a slot and the task runs again.
    pub fn produce(&mut self, sched: &mut Scheduler, value: T) -> (step: Step<(), T>)
        requires
            old(self).wf(),
            old(sched).wf(),
            old(sched)@.task_context(),
            old(sched)@.suspended < usize::MAX,
            !old(self)@.open_at(End::Producer),
        ensures
            final(self).wf(),
            final(sched).wf(),
            (final(self)@, final(sched)@) == (
                old(self)@.produced(old(sched)@, value).0,
                old(self)@.produced(old(sched)@, value).1,
            ),
            step == (if old(self)@.produced(old(sched)@, value).2 {
                Step::<(), T>::Done(())
            } else {
                Step::<(), T>::Park(value)
            }),
    {
        match self.slots.down(sched) {
            Step::Done(_) => {
                self.store(sched, value);
                Step::Done(())
            },
            Step::Park(_) => Step::Park(value),
        }
    }

    /// Puts `value` into the channel if a slot is free. If none is, the
    /// value comes back in `Err` and the channel is as it was. Never blocks;
    /// may be called by a task and by an interrupt handler, at any instant.
    pub fn try_produce_allow_isr(&mut self, sched: &mut Scheduler, value: T) -> (r: Result<(), T>)
        requires
            old(self).wf(),
            old(sched).wf(),
            old(sched)@.suspended < usize::MAX,
        ensures
            final(self).wf(),
            final(sched).wf(),
            (final(self)@, final(sched)@) == (
                old(self)@.tried_produce(old(sched)@, value).0,
                old(self)@.tried_produce(old(sched)@, value).1,
            ),
            r == (if old(self)@.tried_produce(old(sched)@, value).2 {
                Ok::<(), T>(())
            } else {
                Err::<(), T>(value)
            }),
    {
        match self.slots.try_down_allow_isr(sched) {
            Ok(_) => {
                self.store(sched, value);
                Ok(())
            },
            Err(_) => Err(value),
        }
    }

    /// Takes the oldest value out of the channel on behalf of the running
    /// task.
    ///
    /// If the channel holds a value the oldest leaves, a waiting producer is
    /// woken, and the result is `Done` with the value. Otherwise the task
    /// joins the consumers' wait queue at the place of its priority and is
    /// blocked; the result is `Park`. The task must then yield, and call
    /// `consume` again once a producer has stored a value and the task runs
    /// again.
    pub fn consume(&mut self, sched: &mut Scheduler) -> (step: Step<T, ()>)
        requires
            old(self).wf(),
            old(sched).wf(),
            old(sched)@.task_context(),
            old(sched)@.suspended < usize::MAX,
            !old(self)@.open_at(End::Consumer),
        ensures
            final(self).wf(),
            final(sched).wf(),
            (final(self)@, final(sched)@) == (
                old(self)@.consumed(old(sched)@).0,
                old(self)@.consumed(old(sched)@).1,
            ),
            step == (match old(self)@.consumed(old(sched)@).2 {
                Some(value) => Step::<T, ()>::Done(value),
                None => Step::<T, ()>::Park(()),
            }),
    {
        match self.items.down(sched) {
            Step::Done(_) => {
                let value = self.buffer.remove(0);
                self.slots.up(sched);
                Step::Done(value)
            },
            Step::Park(_) => Step::Park(()),
        }
    }
}

/// Offering a value without waiting keeps the channel well formed. The
/// value is stored exactly if the producers' end yields a free slot, and is
/// then the newest; otherwise the buffer is untouched.
pub proof fn lemma_try_produce_keeps_account<T>(
    channel: ChannelView<T>,
    capacity: nat,
    s: SchedulerView,
    value: T,
)
    requires
        channel.wf(capacity),
    ensures
        ({
            let (after, _, stored) = channel.tried_produce(s, value);
            &&& after.wf(capacity)
            &&& after.slots.open == channel.slots.open
            &&& after.items.open == channel.items.open
            &&& stored ==> after.buffer == channel.buffer.push(value)
            &&& !stored ==> after.buffer == channel.buffer
            &&& !channel.slots.open ==> stored == (channel.buffer.len() < capacity)
            &&& channel.slots.open ==> stored == (channel.slots.content.count > 0)
        }),
{
    lemma_merge_keeps_bounds(channel.slots.content, s);
    lemma_count_stays_in_bounds(channel.slots, s);
    let (slots, s1, got) = channel.slots.tried_down(s);
    lemma_count_stays_in_bounds(channel.items, s1);
    lemma_merge_keeps_bounds(channel.items.content, s1);
    let (merged, s2) = channel.items.content.merged(s1);
    lemma_merge_keeps_bounds(merged.posted(), s2);
}

/// A full channel rejects every value that is offered without waiting, and
/// stays as it was: the buffer and both wait queues are untouched.
pub proof fn lemma_full_channel_rejects<T>(
    channel: ChannelView<T>,
    capacity: nat,
    s: SchedulerView,
    value: T,
)
    requires
        channel.wf(capacity),
        channel.full(capacity),
    ensures
        !channel.tried_produce(s, value).2,
        channel.tried_produce(s, value).0 == channel,
        channel.tried_produce(s, value).1 == s,
{
    lemma_merge_keeps_bounds(channel.slots.content, s);
}

/// Asking for a value keeps the channel well formed. While the consumers'
/// end is free, the request yields the oldest value exactly if the channel
/// holds one, and the values behind it move up.
pub proof fn lemma_consume_keeps_account<T>(channel: ChannelView<T>, capacity: nat, s: SchedulerView)
    requires
        channel.wf(capacity),
        !channel.items.open,
    ensures
        ({
            let (after, _, got) = channel.consumed(s);
            &&& after.wf(capacity)
            &&& after.slots.open == channel.slots.open
            &&& after.items.open == channel.items.open
            &&& channel.buffer.len() > 0 ==> got == Some(channel.buffer[0]) && after.buffer
                == channel.buffer.skip(1)
            &&& channel.buffer.len() == 0 ==> got.is_none() && after.buffer == channel.buffer
        }),
{
    lemma_merge_keeps_bounds(channel.items.content, s);
    lemma_count_stays_in_bounds(channel.items, s);
    let (items, s1, got) = channel.items.downed(s);
    lemma_count_stays_in_bounds(channel.slots, s1);
    lemma_merge_keeps_bounds(channel.slots.content, s1);
    let (merged, s2) = channel.slots.content.merged(s1);
    lemma_merge_keeps_bounds(merged.posted(), s2);
}

/// While the producers' end is free and the channel has room for all of
/// `values`, offering them one after the other stores each of them, behind
/// the values that were there, in the order in which they were offered.
pub proof fn lemma_values_enter_in_order<T>(
    channel: ChannelView<T>,
    capacity: nat,
    s: SchedulerView,
    values: Seq<T>,
)
    requires
        channel.wf(capacity),
        !channel.slots.open,
        channel.buffer.len() + values.len() <= capacity,
    ensures
        ({
            let (after, _, all_stored) = channel.tried_produce_all(s, values);
            &&& all_stored
            &&& after.wf(capacity)
            &&& after.slots.open == channel.slots.open
            &&& after.items.open == channel.items.open
            &&& after.buffer == channel.buffer + values
        }),
    decreases values.len(),
{
    if values.len() == 0 {
        assert(channel.buffer + values == channel.buffer);
    } else {
        lemma_try_produce_keeps_account(channel, capacity, s, values[0]);
        let (c, s1, stored) = channel.tried_produce(s, values[0]);
        lemma_values_enter_in_order(c, capacity, s1, values.skip(1));
        assert(channel.buffer.push(values[0]) + values.skip(1) == channel.buffer + values);
    }
}

/// While the consumers' end is free, `n` requests in a row, for any `n` up
/// to the number of stored values, yield the `n` oldest values, the oldest
/// first, and leave the others in their order.
pub proof fn lemma_values_leave_in_order<T>(
    channel: ChannelView<T>,
    capacity: nat,
    s: SchedulerView,
    n: nat,
)
    requires
        channel.wf(capacity),
        !channel.items.open,
        n <= channel.buffer.len(),
    ensures
        ({
            let (after, _, got) = channel.consumed_times(s, n);
            &&& after.wf(capacity)
            &&& got == channel.buffer.take(n as int)
            &&& after.buffer == channel.buffer.skip(n as int)
        }),
    decreases n,
{
    if n == 0 {
        assert(channel.buffer.take(0) == Seq::<T>::empty());
        assert(channel.buffer.skip(0) == channel.buffer);
    } else {
        lemma_consume_keeps_account(channel, capacity, s);
        let (c, s1, first) = channel.consumed(s);
        lemma_values_leave_in_order(c, capacity, s1, (n - 1) as nat);
        assert(seq![channel.buffer[0]] + channel.buffer.skip(1).take(n - 1) == channel.buffer.take(
            n as int,
        ));
        assert(channel.buffer.skip(1).skip(n - 1) == channel.buffer.skip(n as int));
    }
}

/// First in, first out: what is put into an empty channel, up to its
/// capacity, comes out as it went in.
pub proof fn lemma_first_in_first_out<T>(capacity: nat, s: SchedulerView, values: Seq<T>)
    requires
        values.len() <= capacity <= usize::MAX,
    ensures
        ({
            let (filled, s1, all_stored) = ChannelView::<T>::empty(capacity).tried_produce_all(
                s,
                values,
            );
            let (after, _, got) = filled.consumed_times(s1, values.len());
            &&& all_stored
            &&& got == values
            &&& after.buffer.len() == 0
        }),
{
    let empty = ChannelView::<T>::empty(capacity);
    lemma_values_enter_in_order(empty, capacity, s, values);
    let (filled, s1, _) = empty.tried_produce_all(s, values);
    assert(empty.buffer + values == values);
    lemma_values_leave_in_order(filled, capacity, s1, values.len());
    assert(values.take(values.len() as int) == values);
}

/// A value that is offered while critical sections are open at the ends of
/// the channel neither waits nor is lost. If the producers' end yields a
/// slot the value is stored at once, and the next context that is granted
/// full access at the consumers' end finds every stored value counted.
pub proof fn lemma_produce_in_open_section_is_counted<T>(
    channel: ChannelView<T>,
    capacity: nat,
    s: SchedulerView,
    value: T,
    later: SchedulerView,
)
    requires
        channel.wf(capacity),
        channel.items.open,
    ensures
        ({
            let (after, s1, stored) = channel.tried_produce(s, value);
            let (merged, _) = after.left(End::Consumer).entered(later, End::Consumer);
            &&& after.wf(capacity)
            &&& stored ==> after.buffer == channel.buffer.push(value)
            &&& stored ==> after.items.content == channel.items.content.posted()
            &&& merged.wf(capacity)
            &&& merged.buffer == after.buffer
            &&& merged.items.content.pending_up == 0
            &&& merged.items.content.count == after.buffer.len()
        }),
{
    lemma_try_produce_keeps_account(channel, capacity, s, value);
    let (after, s1, stored) = channel.tried_produce(s, value);
    lemma_merge_keeps_bounds(after.items.content, later);
}

/// A blocked producer is woken exactly when a consumer frees a slot: a
/// request that takes a value out makes the most urgent of the blocked
/// producers ready, and a request that finds no value wakes none.
pub proof fn lemma_consume_wakes_the_most_urgent_producer<T>(
    channel: ChannelView<T>,
    capacity: nat,
    s: SchedulerView,
)
    requires
        channel.wf(capacity),
        !channel.items.open,
        !channel.slots.open,
        channel.items.content.pending_up == 0,
        channel.slots.content.pending_up == 0,
        s.wf(),
    ensures
        ({
            let (after, s1, got) = channel.consumed(s);
            let producers = channel.slots.content.waiters;
            &&& got.is_some() && producers.len() > 0 ==> after.slots.content.waiters
                == producers.skip(1) && s1 == s.readied(producers[0].task)
            &&& got.is_some() && producers.len() == 0 ==> s1 == s
            &&& got.is_none() ==> after.slots == channel.slots
        }),
{
    lemma_merge_keeps_bounds(channel.items.content, s);
    lemma_merge_keeps_bounds(channel.slots.content, s);
    let (after, s1, got) = channel.consumed(s);
    if got.is_some() {
        let producers = channel.slots.content.waiters;
        if producers.len() > 0 {
            let first = producers.take(1);
            assert(first[0] == producers[0]);
            assert forall|t: TaskId| holds(first, t) <==> t == producers[0].task by {
                if holds(first, t) {
                    let i = choose|i: int| 0 <= i < first.len() && first[i].task == t;
                    assert(i == 0);
                }
            }
            assert(s.readied_all(first).tasks =~= s.readied(producers[0].task).tasks);
        } else {
            assert(s.readied_all(producers.take(0)).tasks =~= s.tasks);
        }
    }
}

} // verus!
