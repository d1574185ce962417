use hopter::schedule::{Scheduler, Step};
use hopter::sync::semaphore::Semaphore;
use hopter::task::TaskState;

#[test]
fn try_down_ok_then_err() {
    let mut sched = Scheduler::new();
    let main = sched.spawn(0, 8, false);
    assert_eq!(sched.yield_current(), Some(main));
    let mut semaphore = Semaphore::new(5, 3);
    assert_eq!(semaphore.max(), 5);
    assert_eq!(semaphore.count(), 3);
    assert_eq!(semaphore.try_down_allow_isr(&mut sched), Ok(()));
    assert_eq!(semaphore.count(), 2);
    assert_eq!(semaphore.down(&mut sched), Step::Done(()));
    assert_eq!(semaphore.down(&mut sched), Step::Done(()));
    assert_eq!(semaphore.count(), 0);
    assert_eq!(semaphore.try_down_allow_isr(&mut sched), Err(()));
    assert_eq!(semaphore.count(), 0);
    assert_eq!(semaphore.waiter_count(), 0);
    assert_eq!(sched.state_of(main), Some(TaskState::Running));
}

#[test]
fn the_count_never_exceeds_its_bound() {
    let mut sched = Scheduler::new();
    let mut semaphore = Semaphore::new(2, 1);
    semaphore.up(&mut sched);
    assert_eq!(semaphore.count(), 2);
    semaphore.up(&mut sched);
    semaphore.up(&mut sched);
    assert_eq!(semaphore.count(), 2);
    assert_eq!(semaphore.try_down_allow_isr(&mut sched), Ok(()));
    assert_eq!(semaphore.try_down_allow_isr(&mut sched), Ok(()));
    assert_eq!(semaphore.try_down_allow_isr(&mut sched), Err(()));
}

#[test]
fn a_semaphore_that_holds_nothing_never_yields_a_unit() {
    let mut sched = Scheduler::new();
    let mut semaphore = Semaphore::new(0, 0);
    semaphore.up(&mut sched);
    assert_eq!(semaphore.count(), 0);
    assert_eq!(semaphore.try_down_allow_isr(&mut sched), Err(()));
}

#[test]
fn down_parks_the_task_and_up_wakes_the_most_urgent() {
    let mut sched = Scheduler::new();
    let low = sched.spawn(0, 9, false);
    let high = sched.spawn(0, 3, false);
    let giver = sched.spawn(0, 12, false);
    let mut semaphore = Semaphore::new(1, 0);
    assert_eq!(sched.yield_current(), Some(high));
    sched.block_current();
    assert_eq!(sched.yield_current(), Some(low));
    assert_eq!(semaphore.down(&mut sched), Step::Park(()));
    assert_eq!(sched.state_of(low), Some(TaskState::Blocked));
    sched.make_ready(high);
    assert_eq!(sched.yield_current(), Some(high));
    assert_eq!(semaphore.down(&mut sched), Step::Park(()));
    assert_eq!(semaphore.waiter_count(), 2);
    assert_eq!(sched.yield_current(), Some(giver));

    semaphore.up(&mut sched);
    assert_eq!(semaphore.count(), 1);
    assert_eq!(semaphore.waiter_count(), 1);
    assert_eq!(sched.state_of(high), Some(TaskState::Ready));
    assert_eq!(sched.state_of(low), Some(TaskState::Blocked));
    assert_eq!(sched.yield_current(), Some(high));
    assert_eq!(semaphore.down(&mut sched), Step::Done(()));
    assert_eq!(semaphore.count(), 0);
    sched.block_current();
    assert_eq!(sched.yield_current(), Some(giver));

    semaphore.up(&mut sched);
    assert_eq!(sched.yield_current(), Some(low));
    assert_eq!(semaphore.down(&mut sched), Step::Done(()));
    assert_eq!(semaphore.waiter_count(), 0);
}

#[test]
fn a_woken_task_waits_again_if_its_unit_was_taken() {
    let mut sched = Scheduler::new();
    let waiter = sched.spawn(0, 9, false);
    let giver = sched.spawn(0, 12, false);
    let mut semaphore = Semaphore::new(1, 0);
    assert_eq!(sched.yield_current(), Some(waiter));
    assert_eq!(semaphore.down(&mut sched), Step::Park(()));
    assert_eq!(sched.yield_current(), Some(giver));
    semaphore.up(&mut sched);
    // An interrupt handler is faster than the woken task.
    sched.enter_isr();
    assert_eq!(semaphore.try_down_allow_isr(&mut sched), Ok(()));
    sched.exit_isr();
    assert_eq!(sched.yield_current(), Some(waiter));
    assert_eq!(semaphore.down(&mut sched), Step::Park(()));
    assert_eq!(semaphore.waiter_count(), 1);
}

#[test]
fn try_down_in_an_open_section_works_on_the_count_as_it_stands() {
    let mut sched = Scheduler::new();
    let task = sched.spawn(0, 4, false);
    assert_eq!(sched.yield_current(), Some(task));
    let mut semaphore = Semaphore::new(3, 1);
    semaphore.acquire(&mut sched);
    assert!(semaphore.is_open());
    sched.enter_isr();
    assert_eq!(semaphore.try_down_allow_isr(&mut sched), Ok(()));
    assert_eq!(semaphore.count(), 0);
    assert_eq!(semaphore.try_down_allow_isr(&mut sched), Err(()));
    semaphore.up(&mut sched);
    // The unit is pending, not counted: the attempt still fails.
    assert_eq!(semaphore.pending_up(), 1);
    assert_eq!(semaphore.try_down_allow_isr(&mut sched), Err(()));
    sched.exit_isr();
    semaphore.release(&mut sched);
    assert!(!sched.is_suspended());
    assert_eq!(semaphore.try_down_allow_isr(&mut sched), Ok(()));
    assert_eq!(semaphore.pending_up(), 0);
    assert_eq!(semaphore.count(), 0);
}

#[test]
fn pending_units_are_merged_and_wake_as_many_tasks() {
    let mut sched = Scheduler::new();
    let a = sched.spawn(0, 5, false);
    let b = sched.spawn(0, 6, false);
    let c = sched.spawn(0, 7, false);
    let holder = sched.spawn(0, 20, false);
    let mut semaphore = Semaphore::new(4, 0);
    for task in [a, b, c] {
        assert_eq!(sched.yield_current(), Some(task));
        assert_eq!(semaphore.down(&mut sched), Step::Park(()));
    }
    assert_eq!(sched.yield_current(), Some(holder));
    semaphore.acquire(&mut sched);
    sched.enter_isr();
    semaphore.up(&mut sched);
    semaphore.up(&mut sched);
    sched.exit_isr();
    assert_eq!(semaphore.waiter_count(), 3);
    assert_eq!(sched.state_of(a), Some(TaskState::Blocked));
    semaphore.release(&mut sched);
    semaphore.acquire(&mut sched);
    assert_eq!(semaphore.count(), 2);
    assert_eq!(semaphore.pending_up(), 0);
    assert_eq!(semaphore.waiter_count(), 1);
    assert_eq!(sched.state_of(a), Some(TaskState::Ready));
    assert_eq!(sched.state_of(b), Some(TaskState::Ready));
    assert_eq!(sched.state_of(c), Some(TaskState::Blocked));
    semaphore.release(&mut sched);
}
