use hopter::schedule::{Scheduler, Step};
use hopter::task::TaskState;
use hopter::uart::{UartError, UsartSerial, UsartTimer, READ_TIMEOUT_MS, RX_CAPACITY};

fn running_task(sched: &mut Scheduler) -> usize {
    let id = sched.spawn(0, 4, false);
    assert_eq!(sched.yield_current(), Some(id));
    id
}

#[test]
fn bytes_are_read_in_the_order_of_arrival() {
    let mut sched = Scheduler::new();
    let _reader = running_task(&mut sched);
    let mut serial = UsartSerial::new();
    assert_eq!(serial.buffered(), 0);
    for byte in [7u8, 8, 9] {
        sched.enter_isr();
        assert_eq!(serial.on_byte_received(&mut sched, byte), Ok(()));
        sched.exit_isr();
    }
    assert_eq!(serial.buffered(), 3);
    assert_eq!(serial.read_byte_with_timeout(&mut sched, 10), Step::Done(Ok(7)));
    assert_eq!(serial.max_size(), 2);
    assert_eq!(serial.read_byte_with_timeout(&mut sched, 10), Step::Done(Ok(8)));
    assert_eq!(serial.read_byte_with_timeout(&mut sched, 10), Step::Done(Ok(9)));
    assert_eq!(serial.buffered(), 0);
    assert_eq!(serial.max_size(), 2);
    assert!(!serial.is_reading());
}

#[test]
fn a_reader_waits_for_a_byte() {
    let mut sched = Scheduler::new();
    let reader = running_task(&mut sched);
    let mut serial = UsartSerial::new();
    assert_eq!(serial.read_byte_with_timeout(&mut sched, READ_TIMEOUT_MS), Step::Park(()));
    assert!(serial.is_reading());
    assert_eq!(sched.yield_current(), None);
    sched.enter_isr();
    assert_eq!(serial.on_byte_received(&mut sched, 0x5a), Ok(()));
    sched.exit_isr();
    assert_eq!(sched.state_of(reader), Some(TaskState::Ready));
    assert_eq!(sched.yield_current(), Some(reader));
    assert_eq!(serial.resume_read_byte_with_timeout(&mut sched), Ok(0x5a));
    assert!(!serial.is_reading());
    assert_eq!(serial.buffered(), 0);
}

#[test]
fn a_read_without_a_byte_times_out() {
    let mut sched = Scheduler::new();
    let reader = running_task(&mut sched);
    let mut serial = UsartSerial::new();
    assert_eq!(serial.read_byte_with_timeout(&mut sched, 3), Step::Park(()));
    assert_eq!(sched.yield_current(), None);
    for _ in 0..3 {
        sched.advance_tick();
    }
    assert_eq!(sched.yield_current(), Some(reader));
    assert_eq!(serial.resume_read_byte_with_timeout(&mut sched), Err(UartError::Timeout));
    // A byte that arrives later is there for the next read.
    assert_eq!(serial.on_byte_received(&mut sched, 1), Ok(()));
    assert_eq!(serial.read_byte_with_timeout(&mut sched, 3), Step::Done(Ok(1)));
}

#[test]
fn a_byte_that_finds_the_buffer_full_is_handed_back() {
    let mut sched = Scheduler::new();
    let _reader = running_task(&mut sched);
    let mut serial = UsartSerial::new();
    for i in 0..RX_CAPACITY {
        assert_eq!(serial.on_byte_received(&mut sched, i as u8), Ok(()));
    }
    assert_eq!(serial.buffered(), RX_CAPACITY);
    assert_eq!(serial.on_byte_received(&mut sched, 200), Err(200));
    assert_eq!(serial.buffered(), 128);
    assert_eq!(serial.read_byte_with_timeout(&mut sched, 1), Step::Done(Ok(0)));
    assert_eq!(serial.max_size(), 127);
    assert_eq!(serial.on_byte_received(&mut sched, 201), Ok(()));
    for i in 1..RX_CAPACITY {
        assert_eq!(serial.read_byte_with_timeout(&mut sched, 1), Step::Done(Ok(i as u8)));
    }
    assert_eq!(serial.read_byte_with_timeout(&mut sched, 1), Step::Done(Ok(201)));
    assert_eq!(serial.read_byte_with_timeout(&mut sched, 1), Step::Park(()));
}

#[test]
fn the_timer_reads_the_tick_counter() {
    let mut sched = Scheduler::new();
    let mut timer = UsartTimer {};
    assert_eq!(timer.get_timestamp_ms(&sched), 0);
    for _ in 0..25 {
        sched.advance_tick();
    }
    assert_eq!(timer.get_timestamp_ms(&sched), 25);
}
