use hopter::queue::OrderedQueue;
use hopter::schedule::Scheduler;
use hopter::task::{Task, TaskState};

#[test]
fn a_new_scheduler_is_idle_at_tick_zero() {
    let mut sched = Scheduler::new();
    assert_eq!(sched.task_count(), 0);
    assert_eq!(sched.current(), None);
    assert_eq!(sched.get_tick(), 0);
    assert_eq!(sched.sleeper_count(), 0);
    assert!(!sched.in_isr());
    assert!(!sched.is_suspended());
    assert!(!sched.in_task_context());
    assert_eq!(sched.yield_current(), None);
    assert_eq!(sched.state_of(0), None);
    assert_eq!(sched.task(0), None);
}

#[test]
fn spawn_adds_a_ready_task() {
    let mut sched = Scheduler::new();
    let id = sched.spawn(7, 3, true);
    assert_eq!(id, 0);
    assert_eq!(
        sched.task(id),
        Some(Task { entry: 7, priority: 3, state: TaskState::Ready, restartable: true })
    );
    assert_eq!(Task::new(7, 3, true), sched.task(id).unwrap());
    assert_eq!(sched.spawn(8, 4, false), 1);
    assert_eq!(sched.task_count(), 2);
}

#[test]
fn the_lowest_priority_number_runs_first() {
    let mut sched = Scheduler::new();
    let low = sched.spawn(0, 9, false);
    let high = sched.spawn(0, 2, false);
    let middle = sched.spawn(0, 5, false);
    assert_eq!(sched.yield_current(), Some(high));
    assert_eq!(sched.current(), Some(high));
    assert_eq!(sched.state_of(high), Some(TaskState::Running));
    assert_eq!(sched.state_of(middle), Some(TaskState::Ready));
    assert!(sched.in_task_context());
    // The running task is chosen again while it is the most urgent.
    assert_eq!(sched.yield_current(), Some(high));
    sched.block_current();
    assert_eq!(sched.yield_current(), Some(middle));
    sched.block_current();
    assert_eq!(sched.yield_current(), Some(low));
    sched.block_current();
    assert_eq!(sched.yield_current(), None);
    assert_eq!(sched.current(), None);
    sched.make_ready(middle);
    sched.make_ready(middle);
    assert_eq!(sched.yield_current(), Some(middle));
}

#[test]
fn equal_priorities_go_by_identifier() {
    let mut sched = Scheduler::new();
    let first = sched.spawn(0, 5, false);
    let second = sched.spawn(0, 5, false);
    assert_eq!(sched.yield_current(), Some(first));
    assert_eq!(sched.yield_current(), Some(first));
    sched.block_current();
    assert_eq!(sched.yield_current(), Some(second));
}

#[test]
fn changing_the_priority_changes_the_choice() {
    let mut sched = Scheduler::new();
    assert_eq!(sched.change_current_priority(1), Err(()));
    let a = sched.spawn(0, 5, false);
    let b = sched.spawn(0, 6, false);
    assert_eq!(sched.yield_current(), Some(a));
    assert_eq!(sched.change_current_priority(7), Ok(()));
    assert_eq!(sched.task(a).unwrap().priority, 7);
    assert_eq!(sched.yield_current(), Some(b));
    sched.enter_isr();
    assert_eq!(sched.change_current_priority(1), Err(()));
    sched.exit_isr();
}

#[test]
fn make_ready_leaves_tasks_alone_that_are_not_blocked() {
    let mut sched = Scheduler::new();
    let a = sched.spawn(0, 5, false);
    assert_eq!(sched.yield_current(), Some(a));
    sched.make_ready(a);
    assert_eq!(sched.state_of(a), Some(TaskState::Running));
    sched.make_ready(17);
    assert_eq!(sched.task_count(), 1);
}

#[test]
fn sleepers_wake_when_their_tick_comes() {
    let mut sched = Scheduler::new();
    let a = sched.spawn(0, 5, false);
    let b = sched.spawn(0, 6, false);
    assert_eq!(sched.yield_current(), Some(a));
    sched.block_current();
    sched.add_task_to_sleep_queue(a, 3);
    assert_eq!(sched.yield_current(), Some(b));
    sched.block_current();
    sched.add_task_to_sleep_queue(b, 2);
    assert_eq!(sched.yield_current(), None);
    assert!(sched.is_sleeping(a));
    assert_eq!(sched.sleeper_count(), 2);
    assert_eq!(sched.advance_tick(), 0);
    assert_eq!(sched.advance_tick(), 1);
    assert_eq!(sched.get_tick(), 2);
    assert_eq!(sched.state_of(b), Some(TaskState::Ready));
    assert_eq!(sched.state_of(a), Some(TaskState::Blocked));
    assert_eq!(sched.advance_tick(), 1);
    assert_eq!(sched.state_of(a), Some(TaskState::Ready));
    assert!(!sched.is_sleeping(a));
    assert_eq!(sched.advance_tick(), 0);
    assert_eq!(sched.yield_current(), Some(a));
}

#[test]
fn several_sleepers_may_wake_on_one_tick() {
    let mut sched = Scheduler::new();
    let a = sched.spawn(0, 5, false);
    let b = sched.spawn(0, 6, false);
    assert_eq!(sched.yield_current(), Some(a));
    sched.block_current();
    sched.add_task_to_sleep_queue(a, 1);
    assert_eq!(sched.yield_current(), Some(b));
    sched.block_current();
    sched.add_task_to_sleep_queue(b, 1);
    assert_eq!(sched.advance_tick(), 2);
    assert_eq!(sched.sleeper_count(), 0);
    assert_eq!(sched.state_of(a), Some(TaskState::Ready));
    assert_eq!(sched.state_of(b), Some(TaskState::Ready));
}

#[test]
fn early_removal_from_the_sleep_queue_is_idempotent() {
    let mut sched = Scheduler::new();
    let a = sched.spawn(0, 5, false);
    assert_eq!(sched.yield_current(), Some(a));
    sched.block_current();
    sched.add_task_to_sleep_queue(a, 100);
    sched.add_task_to_sleep_queue(a, 50);
    assert_eq!(sched.sleeper_count(), 1);
    sched.remove_task_from_sleep_queue_allow_isr(a);
    assert_eq!(sched.state_of(a), Some(TaskState::Ready));
    assert_eq!(sched.yield_current(), Some(a));
    // The second removal finds nothing to do and leaves the running task alone.
    sched.remove_task_from_sleep_queue_allow_isr(a);
    assert_eq!(sched.state_of(a), Some(TaskState::Running));
    for _ in 0..60 {
        assert_eq!(sched.advance_tick(), 0);
    }
}

#[test]
fn wake_first_readies_the_front_of_a_queue() {
    let mut sched = Scheduler::new();
    let a = sched.spawn(0, 5, false);
    let b = sched.spawn(0, 6, false);
    let c = sched.spawn(0, 7, false);
    let mut queue = OrderedQueue::new();
    for task in [a, b, c] {
        assert_eq!(sched.yield_current(), Some(task));
        sched.block_current();
        queue.insert(task, 10 - task as u64);
    }
    assert_eq!(sched.wake_first(&mut queue, 2), 2);
    assert_eq!(queue.len(), 1);
    assert_eq!(sched.state_of(c), Some(TaskState::Ready));
    assert_eq!(sched.state_of(b), Some(TaskState::Ready));
    assert_eq!(sched.state_of(a), Some(TaskState::Blocked));
    assert_eq!(sched.wake_first(&mut queue, 5), 1);
    assert_eq!(sched.wake_first(&mut queue, 5), 0);
}

#[test]
fn a_restartable_task_is_ready_again_when_it_ends() {
    let mut sched = Scheduler::new();
    let once = sched.spawn(11, 5, false);
    let again = sched.spawn(12, 6, true);
    assert_eq!(sched.yield_current(), Some(once));
    assert_eq!(sched.end_current(), None);
    assert_eq!(sched.state_of(once), Some(TaskState::Terminated));
    assert_eq!(sched.yield_current(), Some(again));
    assert_eq!(sched.end_current(), Some(12));
    assert_eq!(sched.state_of(again), Some(TaskState::Ready));
    assert_eq!(sched.yield_current(), Some(again));
    assert_eq!(sched.state_of(once), Some(TaskState::Terminated));
}

#[test]
fn suspension_and_interrupts_nest() {
    let mut sched = Scheduler::new();
    assert!(sched.can_suspend());
    sched.suspend();
    sched.suspend();
    assert!(sched.is_suspended());
    sched.resume();
    assert!(sched.is_suspended());
    sched.resume();
    assert!(!sched.is_suspended());
    sched.enter_isr();
    sched.enter_isr();
    assert!(sched.in_isr());
    sched.exit_isr();
    assert!(sched.in_isr());
    sched.exit_isr();
    assert!(!sched.in_isr());
}
