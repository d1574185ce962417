use hopter::schedule::{Scheduler, Step};
use hopter::sync::mailbox::{Mailbox, WAIT_ROUND_TICKS};
use hopter::task::TaskState;

fn running_task(sched: &mut Scheduler, priority: u8) -> usize {
    let id = sched.spawn(0, priority, false);
    assert_eq!(sched.yield_current(), Some(id));
    id
}

#[test]
fn wait_consumes_a_notification_posted_in_advance() {
    let mut sched = Scheduler::new();
    let _listener = running_task(&mut sched, 4);
    let mut mailbox = Mailbox::new();
    mailbox.notify_allow_isr(&mut sched);
    assert_eq!(mailbox.count(), 1);
    assert_eq!(mailbox.wait_until_timeout(&mut sched, 500), Step::Done(true));
    assert_eq!(mailbox.count(), 0);
    assert_eq!(mailbox.wait_task(), None);
}

#[test]
fn wait_times_out_after_the_given_ticks() {
    let mut sched = Scheduler::new();
    let listener = running_task(&mut sched, 4);
    let mut mailbox = Mailbox::new();
    assert_eq!(mailbox.wait_until_timeout(&mut sched, 500), Step::Park(()));
    assert_eq!(sched.state_of(listener), Some(TaskState::Blocked));
    assert_eq!(mailbox.wait_task(), Some(listener));
    assert_eq!(sched.yield_current(), None);
    for _ in 0..499 {
        assert_eq!(sched.advance_tick(), 0);
    }
    assert_eq!(sched.state_of(listener), Some(TaskState::Blocked));
    assert_eq!(sched.advance_tick(), 1);
    assert_eq!(sched.get_tick(), 500);
    assert_eq!(sched.state_of(listener), Some(TaskState::Ready));
    assert_eq!(sched.yield_current(), Some(listener));
    assert!(!mailbox.resume_wait_until_timeout(&mut sched));
    assert_eq!(mailbox.wait_task(), None);
}

#[test]
fn notify_in_advance_after_timeout() {
    let mut sched = Scheduler::new();
    let listener = running_task(&mut sched, 4);
    let mut mailbox = Mailbox::new();
    assert_eq!(mailbox.wait_until_timeout(&mut sched, 500), Step::Park(()));
    assert_eq!(sched.yield_current(), None);
    for _ in 0..500 {
        sched.advance_tick();
    }
    assert_eq!(sched.yield_current(), Some(listener));
    let notified = mailbox.resume_wait_until_timeout(&mut sched);
    assert!(!notified);
    mailbox.notify_allow_isr(&mut sched);
    assert_eq!(mailbox.wait_until_timeout(&mut sched, 500), Step::Done(true));
}

#[test]
fn task_not_timeout() {
    let mut sched = Scheduler::new();
    let mut mailbox = Mailbox::new();
    mailbox.notify_allow_isr(&mut sched);
    let listener = sched.spawn(0, 4, false);
    let notifier = sched.spawn(0, 8, false);
    assert_eq!(sched.yield_current(), Some(listener));
    assert_eq!(mailbox.wait_until_timeout(&mut sched, 1000), Step::Done(true));
    assert_eq!(mailbox.wait_until_timeout(&mut sched, 1000), Step::Park(()));
    assert_eq!(sched.yield_current(), Some(notifier));
    // The notifier sleeps for 500 ticks and notifies then.
    sched.block_current();
    let wake = sched.get_tick() + 500;
    sched.add_task_to_sleep_queue(notifier, wake);
    assert_eq!(sched.yield_current(), None);
    for _ in 0..500 {
        sched.advance_tick();
    }
    assert_eq!(sched.yield_current(), Some(notifier));
    mailbox.notify_allow_isr(&mut sched);
    assert_eq!(sched.state_of(listener), Some(TaskState::Ready));
    assert!(!sched.is_sleeping(listener));
    assert_eq!(mailbox.count(), 0);
    assert_eq!(sched.yield_current(), Some(listener));
    assert!(mailbox.resume_wait_until_timeout(&mut sched));
    // The timeout that lost the race never fires.
    for _ in 0..600 {
        assert_eq!(sched.advance_tick(), 0);
    }
}

#[test]
fn every_notification_is_counted_until_it_is_consumed() {
    let mut sched = Scheduler::new();
    let _listener = running_task(&mut sched, 4);
    let mut mailbox = Mailbox::new();
    for _ in 0..5 {
        mailbox.notify_allow_isr(&mut sched);
    }
    assert_eq!(mailbox.count(), 5);
    for _ in 0..3 {
        assert_eq!(mailbox.wait_until_timeout(&mut sched, 10), Step::Done(true));
    }
    assert_eq!(mailbox.count(), 2);
    assert_eq!(sched.sleeper_count(), 0);
}

#[test]
fn a_parked_waiter_excludes_a_second_one() {
    let mut sched = Scheduler::new();
    let first = sched.spawn(0, 4, false);
    let second = sched.spawn(0, 5, false);
    assert_eq!(sched.yield_current(), Some(first));
    let mut mailbox = Mailbox::new();
    assert!(mailbox.ready_to_wait(&sched));
    assert_eq!(mailbox.wait_until_timeout(&mut sched, 100), Step::Park(()));
    assert_eq!(sched.yield_current(), Some(second));
    assert!(!mailbox.ready_to_wait(&sched));
    // Once the first waiter has been notified the slot is free again.
    mailbox.notify_allow_isr(&mut sched);
    assert!(mailbox.ready_to_wait(&sched));
}

#[test]
fn a_notification_that_races_a_timeout_wins_until_the_task_resumes() {
    let mut sched = Scheduler::new();
    let listener = running_task(&mut sched, 4);
    let mut mailbox = Mailbox::new();
    assert_eq!(mailbox.wait_until_timeout(&mut sched, 2), Step::Park(()));
    assert_eq!(sched.yield_current(), None);
    sched.advance_tick();
    assert_eq!(sched.advance_tick(), 1);
    // The timeout has made the task ready, but the task has not run yet.
    mailbox.notify_allow_isr(&mut sched);
    assert_eq!(mailbox.count(), 0);
    assert_eq!(sched.yield_current(), Some(listener));
    assert!(mailbox.resume_wait_until_timeout(&mut sched));
}

#[test]
fn a_notification_after_the_task_resumed_is_counted() {
    let mut sched = Scheduler::new();
    let listener = running_task(&mut sched, 4);
    let mut mailbox = Mailbox::new();
    assert_eq!(mailbox.wait_until_timeout(&mut sched, 1), Step::Park(()));
    assert_eq!(sched.yield_current(), None);
    assert_eq!(sched.advance_tick(), 1);
    assert_eq!(sched.yield_current(), Some(listener));
    assert!(!mailbox.resume_wait_until_timeout(&mut sched));
    mailbox.notify_allow_isr(&mut sched);
    assert_eq!(mailbox.count(), 1);
}

#[test]
fn a_notification_in_an_open_section_is_pending_until_the_next_entry() {
    let mut sched = Scheduler::new();
    let _listener = running_task(&mut sched, 4);
    let mut mailbox = Mailbox::new();
    mailbox.acquire(&mut sched);
    assert!(mailbox.is_open());
    sched.enter_isr();
    mailbox.notify_allow_isr(&mut sched);
    mailbox.notify_allow_isr(&mut sched);
    sched.exit_isr();
    assert_eq!(mailbox.count(), 0);
    assert_eq!(mailbox.pending_count(), 2);
    mailbox.release(&mut sched);
    assert!(!mailbox.is_open());
    assert!(!sched.is_suspended());
    assert_eq!(mailbox.wait_until_timeout(&mut sched, 10), Step::Done(true));
    assert_eq!(mailbox.count(), 1);
    assert_eq!(mailbox.pending_count(), 0);
}

#[test]
fn a_pending_notification_wakes_the_parked_task_at_the_next_entry() {
    let mut sched = Scheduler::new();
    let listener = sched.spawn(0, 4, false);
    let other = sched.spawn(0, 6, false);
    assert_eq!(sched.yield_current(), Some(listener));
    let mut mailbox = Mailbox::new();
    assert_eq!(mailbox.wait_until_timeout(&mut sched, 100), Step::Park(()));
    assert_eq!(sched.yield_current(), Some(other));
    mailbox.acquire(&mut sched);
    sched.enter_isr();
    mailbox.notify_allow_isr(&mut sched);
    sched.exit_isr();
    assert_eq!(sched.state_of(listener), Some(TaskState::Blocked));
    mailbox.release(&mut sched);
    // The next context with full access merges and wakes the listener.
    mailbox.acquire(&mut sched);
    assert_eq!(sched.state_of(listener), Some(TaskState::Ready));
    assert!(!sched.is_sleeping(listener));
    assert_eq!(mailbox.count(), 0);
    assert_eq!(mailbox.pending_count(), 0);
    mailbox.release(&mut sched);
    assert_eq!(sched.yield_current(), Some(listener));
    assert!(mailbox.resume_wait_until_timeout(&mut sched));
}

#[test]
fn an_unbounded_wait_goes_on_after_a_round_times_out() {
    let mut sched = Scheduler::new();
    let listener = sched.spawn(0, 4, false);
    assert_eq!(sched.yield_current(), Some(listener));
    let mut mailbox = Mailbox::new();
    assert_eq!(mailbox.wait(&mut sched), Step::Park(()));
    assert!(sched.is_sleeping(listener));
    // Cut the round short by moving the wake tick forward.
    sched.add_task_to_sleep_queue(listener, 1);
    assert_eq!(sched.advance_tick(), 1);
    assert_eq!(sched.yield_current(), Some(listener));
    assert_eq!(mailbox.resume_wait(&mut sched), Step::Park(()));
    assert_eq!(mailbox.wait_task(), Some(listener));
    assert_eq!(sched.state_of(listener), Some(TaskState::Blocked));
    assert_eq!(sched.yield_current(), None);
    mailbox.notify_allow_isr(&mut sched);
    assert_eq!(sched.yield_current(), Some(listener));
    assert_eq!(mailbox.resume_wait(&mut sched), Step::Done(()));
    assert_eq!(WAIT_ROUND_TICKS, 100_000_000);
}

#[test]
fn an_unbounded_wait_is_over_at_once_if_a_notification_is_there() {
    let mut sched = Scheduler::new();
    let _listener = running_task(&mut sched, 4);
    let mut mailbox = Mailbox::new();
    mailbox.notify_allow_isr(&mut sched);
    assert_eq!(mailbox.wait(&mut sched), Step::Done(()));
}

#[test]
fn a_wait_near_the_last_tick_sleeps_until_the_last_tick() {
    let mut sched = Scheduler::new();
    let listener = running_task(&mut sched, 4);
    let mut mailbox = Mailbox::new();
    assert_eq!(mailbox.wait_until_timeout(&mut sched, u32::MAX), Step::Park(()));
    assert!(sched.is_sleeping(listener));
    for _ in 0..10 {
        assert_eq!(sched.advance_tick(), 0);
    }
}
