use hopter::schedule::{Scheduler, Step};
use hopter::sync::channel::{Channel, End};
use hopter::task::TaskState;

#[test]
fn try_produce_from_task() {
    let mut sched = Scheduler::new();
    let main = sched.spawn(0, 8, false);
    assert_eq!(sched.yield_current(), Some(main));
    let mut channel: Channel<usize, 4> = Channel::new();
    assert_eq!(channel.capacity(), 4);
    for i in 0..=3 {
        assert_eq!(channel.produce(&mut sched, i), Step::Done(()));
    }
    assert!(channel.is_full());
    for i in 4..=7 {
        assert_eq!(channel.try_produce_allow_isr(&mut sched, i), Err(i));
        assert_eq!(channel.len(), 4);
    }
    for i in 0..4 {
        assert_eq!(channel.consume(&mut sched), Step::Done(i));
    }
    assert_eq!(channel.len(), 0);
    assert_eq!(sched.state_of(main), Some(TaskState::Running));
}

#[test]
fn values_pass_through_in_order_while_the_channel_is_in_use() {
    let mut sched = Scheduler::new();
    let main = sched.spawn(0, 8, false);
    assert_eq!(sched.yield_current(), Some(main));
    let mut channel: Channel<u8, 2> = Channel::new();
    assert_eq!(channel.try_produce_allow_isr(&mut sched, 10), Ok(()));
    assert_eq!(channel.try_produce_allow_isr(&mut sched, 11), Ok(()));
    assert_eq!(channel.consume(&mut sched), Step::Done(10));
    assert_eq!(channel.try_produce_allow_isr(&mut sched, 12), Ok(()));
    assert_eq!(channel.try_produce_allow_isr(&mut sched, 13), Err(13));
    assert_eq!(channel.consume(&mut sched), Step::Done(11));
    assert_eq!(channel.consume(&mut sched), Step::Done(12));
    assert_eq!(channel.len(), 0);
}

#[test]
fn a_consumer_of_an_empty_channel_waits_for_a_value() {
    let mut sched = Scheduler::new();
    let consumer = sched.spawn(0, 4, false);
    let producer = sched.spawn(0, 6, false);
    let mut channel: Channel<u32, 2> = Channel::new();
    assert_eq!(sched.yield_current(), Some(consumer));
    assert_eq!(channel.consume(&mut sched), Step::Park(()));
    assert_eq!(channel.blocked_consumers(), 1);
    assert_eq!(sched.yield_current(), Some(producer));
    assert_eq!(channel.produce(&mut sched, 77), Step::Done(()));
    assert_eq!(sched.state_of(consumer), Some(TaskState::Ready));
    assert_eq!(sched.yield_current(), Some(consumer));
    assert_eq!(channel.consume(&mut sched), Step::Done(77));
    assert_eq!(channel.blocked_consumers(), 0);
}

#[test]
fn blocked_producers_are_woken_by_priority_when_a_slot_is_freed() {
    let mut sched = Scheduler::new();
    let low = sched.spawn(0, 9, false);
    let high = sched.spawn(0, 5, false);
    let consumer = sched.spawn(0, 12, false);
    let mut channel: Channel<u32, 1> = Channel::new();
    assert_eq!(sched.yield_current(), Some(high));
    sched.block_current();
    assert_eq!(sched.yield_current(), Some(low));
    assert_eq!(channel.produce(&mut sched, 1), Step::Done(()));
    assert_eq!(channel.produce(&mut sched, 2), Step::Park(2));
    sched.make_ready(high);
    assert_eq!(sched.yield_current(), Some(high));
    assert_eq!(channel.produce(&mut sched, 3), Step::Park(3));
    assert_eq!(channel.blocked_producers(), 2);
    assert_eq!(sched.yield_current(), Some(consumer));

    assert_eq!(channel.consume(&mut sched), Step::Done(1));
    assert_eq!(sched.state_of(high), Some(TaskState::Ready));
    assert_eq!(sched.state_of(low), Some(TaskState::Blocked));
    assert_eq!(sched.yield_current(), Some(high));
    assert_eq!(channel.produce(&mut sched, 3), Step::Done(()));
    sched.block_current();
    assert_eq!(sched.yield_current(), Some(consumer));
    assert_eq!(channel.consume(&mut sched), Step::Done(3));
    assert_eq!(sched.yield_current(), Some(low));
    assert_eq!(channel.produce(&mut sched, 2), Step::Done(()));
    assert_eq!(channel.len(), 1);
}

#[test]
fn a_value_produced_in_an_open_section_is_stored_and_counted_later() {
    let mut sched = Scheduler::new();
    let consumer = sched.spawn(0, 4, false);
    assert_eq!(sched.yield_current(), Some(consumer));
    let mut channel: Channel<u8, 4> = Channel::new();
    channel.acquire(&mut sched, End::Consumer);
    assert!(channel.is_open(End::Consumer));
    assert!(!channel.is_open(End::Producer));
    sched.enter_isr();
    assert_eq!(channel.try_produce_allow_isr(&mut sched, 42), Ok(()));
    sched.exit_isr();
    assert_eq!(channel.len(), 1);
    channel.release(&mut sched, End::Consumer);
    assert_eq!(channel.consume(&mut sched), Step::Done(42));
    assert_eq!(channel.len(), 0);
}

#[test]
fn a_producer_in_an_open_section_takes_only_counted_slots() {
    let mut sched = Scheduler::new();
    let task = sched.spawn(0, 4, false);
    assert_eq!(sched.yield_current(), Some(task));
    let mut channel: Channel<u8, 1> = Channel::new();
    channel.acquire(&mut sched, End::Producer);
    sched.enter_isr();
    assert_eq!(channel.try_produce_allow_isr(&mut sched, 1), Ok(()));
    assert_eq!(channel.try_produce_allow_isr(&mut sched, 2), Err(2));
    sched.exit_isr();
    channel.release(&mut sched, End::Producer);
    assert_eq!(channel.consume(&mut sched), Step::Done(1));
    assert_eq!(channel.try_produce_allow_isr(&mut sched, 3), Ok(()));
    assert_eq!(channel.consume(&mut sched), Step::Done(3));
}
