//! The receiving side of a serial line: bytes that the receive interrupt
//! stores, and a reader task that waits for them with a timeout.

use vstd::prelude::*;
use crate::schedule::{Scheduler, Step};
use crate::sync::mailbox::{Mailbox, MailboxState};
use crate::sync::soft_lock::SoftLockView;

verus! {

/// Number of received bytes that can wait for the reader.
pub const RX_CAPACITY: usize = 128;

/// The timeout, in ticks, that readers of the line use by default.
pub const READ_TIMEOUT_MS: u32 = 30000;

/// `heapless::Deque`, a double-ended queue of fixed capacity that lives in
/// place. Verus sees nothing inside it.
#[verifier::external_type_specification]
#[verifier::external_body]
#[verifier::reject_recursive_types(T)]
pub struct ExDeque<T, const N: usize>(heapless::Deque<T, N>);

/// The bytes that a deque holds, front first.
pub uninterp spec fn deque_contents(d: heapless::Deque<u8, 128>) -> Seq<u8>;

/// `heapless::Deque::new`: a deque without elements.
#[verifier::external_body]
fn deque_new() -> (d: heapless::Deque<u8, 128>)
    ensures
        deque_contents(d) == Seq::<u8>::empty(),
{
    heapless::Deque::new()
}

/// `heapless::Deque::len`: the number of elements, which never exceeds the
/// capacity.
#[verifier::external_body]
fn deque_len(d: &heapless::Deque<u8, 128>) -> (n: usize)
    ensures
        n == deque_contents(*d).len(),
        n <= 128,
{
    d.len()
}

/// `heapless::Deque::pop_front`: takes the front element out and returns it,
/// or returns `None` and changes nothing if the deque is empty.
#[verifier::external_body]
fn deque_pop_front(d: &mut heapless::Deque<u8, 128>) -> (byte: Option<u8>)
    ensures
        deque_contents(*old(d)).len() == 0 ==> byte.is_none() && deque_contents(*final(d))
            == deque_contents(*old(d)),
        deque_contents(*old(d)).len() > 0 ==> byte == Some(deque_contents(*old(d))[0])
            && deque_contents(*final(d)) == deque_contents(*old(d)).skip(1),
{
    d.pop_front()
}

/// `heapless::Deque::push_back`: appends an element at the back, or hands it
/// back in `Err` and changes nothing if the deque holds as many elements as
/// its capacity.
#[verifier::external_body]
fn deque_push_back(d: &mut heapless::Deque<u8, 128>, byte: u8) -> (pushed: Result<(), u8>)
    ensures
        pushed.is_ok() == (deque_contents(*old(d)).len() < 128),
        pushed matches Err(rejected) ==> rejected == byte,
        deque_contents(*final(d)) == (if deque_contents(*old(d)).len() < 128 {
            deque_contents(*old(d)).push(byte)
        } else {
            deque_contents(*old(d))
        }),
{
    d.push_back(byte)
}

/// What can go wrong on the serial line.
#[derive(Clone, Copy, PartialEq, Eq, Debug, Structural)]
pub enum UartError {
    /// The device reported an error while receiving.
    ReadError,
    /// The device reported an error while sending.
    WriteError,
    /// The line was used before it was set up.
    Uninitialized,
    /// No byte arrived in time.
    Timeout,
}

/// The clock of the serial protocol: the scheduler's tick counter, read as
/// milliseconds.
pub struct UsartTimer {}

impl UsartTimer {
    /// The current time in milliseconds: the tick counter, wrapped to 32
    /// bits.
    pub fn get_timestamp_ms(&mut self, sched: &Scheduler) -> (ms: u32)
        ensures
            ms == sched@.tick % 0x1_0000_0000,
    {
        (sched.get_tick() % 0x1_0000_0000) as u32
    }
}

/// The receiving side of the serial line as contracts speak of it.
pub struct UsartSerialView {
    /// The mailbox through which the receive interrupt tells the reader of
    /// each stored byte.
    pub mailbox: SoftLockView<MailboxState>,
    /// The bytes received and not yet read, oldest first.
    pub bytes: Seq<u8>,
    /// The largest number of bytes that were left in the buffer after a
    /// read.
    pub max_size: nat,
    /// Whether a read is parked or on its way back from being parked.
    pub reading: bool,
}

impl UsartSerialView {
    /// Notifications that stand for a stored byte each: those counted, those
    /// pending, and the one handed to a parked reader that has not taken its
    /// byte yet.
    pub open spec fn credit(self) -> nat {
        self.mailbox.content.count + self.mailbox.content.pending_count + (if self.reading
            && self.mailbox.content.task_notified {
            1nat
        } else {
            0nat
        })
    }

    /// Every notification has its byte in the buffer, the buffer is within
    /// its capacity, and the mailbox is in step with the reader.
    pub open spec fn wf(self) -> bool {
        &&& self.mailbox.content.wf()
        &&& !self.mailbox.open
        &&& self.bytes.len() <= RX_CAPACITY
        &&& self.credit() <= self.bytes.len()
        &&& !self.reading ==> self.mailbox.content.wait_task.is_none()
        &&& self.mailbox.content.wait_task.is_some() ==> !self.mailbox.content.task_notified
        &&& self.reading && self.mailbox.content.wait_task.is_none()
            ==> self.mailbox.content.task_notified
    }

    /// The larger of the high-water mark and `len`.
    pub open spec fn high_water(self, len: nat) -> nat {
        if len > self.max_size {
            len
        } else {
            self.max_size
        }
    }

    /// The receiving side after the reader took the oldest byte.
    pub open spec fn popped(self) -> UsartSerialView {
        UsartSerialView {
            bytes: self.bytes.skip(1),
            max_size: self.high_water((self.bytes.len() - 1) as nat),
            ..self
        }
    }
}

/// The receiving side of the serial line. The receive interrupt stores each
/// byte and notifies; the reader waits for a notification and takes the
/// oldest byte.
pub struct UsartSerial {
    mailbox: Mailbox,
    bytes: heapless::Deque<u8, 128>,
    max_size: usize,
    reading: bool,
}

impl View for UsartSerial {
    type V = UsartSerialView;

    closed spec fn view(&self) -> UsartSerialView {
        UsartSerialView {
            mailbox: self.mailbox@,
            bytes: deque_contents(self.bytes),
            max_size: self.max_size as nat,
            reading: self.reading,
        }
    }
}

impl UsartSerial {
    /// The invariant of the receiving side, see [`UsartSerialView::wf`].
    pub open spec fn wf(&self) -> bool {
        self@.wf()
    }

    /// A receiving side without bytes, notifications or reader.
    pub fn new() -> (serial: UsartSerial)
        ensures
            serial.wf(),
            serial@ == (UsartSerialView {
                mailbox: SoftLockView { open: false, content: MailboxState::empty() },
                bytes: Seq::empty(),
                max_size: 0,
                reading: false,
            }),
    {
        UsartSerial { mailbox: Mailbox::new(), bytes: deque_new(), max_size: 0, reading: false }
    }

    /// Number of bytes received and not yet read.
    pub fn buffered(&self) -> (n: usize)
        ensures
            n == self@.bytes.len(),
    {
        deque_len(&self.bytes)
    }

    /// The largest number of bytes that were left in the buffer after a
    /// read.
    pub fn max_size(&self) -> (n: usize)
        ensures
            n == self@.max_size,
    {
        self.max_size
    }

    /// Whether a read is parked or on its way back from being parked.
    pub fn is_reading(&self) -> (b: bool)
        ensures
            b == self@.reading,
    {
        self.reading
    }

    /// Stores a byte that the device has received and notifies the reader.
    /// A byte that arrives while the buffer is full is handed back in `Err`
    /// and nobody is notified. This is the decision of the receive
    /// interrupt.
    pub fn on_byte_received(&mut self, sched: &mut Scheduler, byte: u8) -> (r: Result<(), u8>)
        requires
            old(self).wf(),
            old(sched).wf(),
            old(sched)@.suspended < usize::MAX,
        ensures
            final(self).wf(),
            final(sched).wf(),
            old(self)@.bytes.len() >= RX_CAPACITY ==> r == Err::<(), u8>(byte) && final(self)@ == old(
                self,
            )@ && final(sched)@ == old(sched)@,
            old(self)@.bytes.len() < RX_CAPACITY ==> r.is_ok() && final(self)@ == (UsartSerialView {
                mailbox: old(self)@.mailbox.notified(old(sched)@).0,
                bytes: old(self)@.bytes.push(byte),
                ..old(self)@
            }) && final(sched)@ == old(self)@.mailbox.notified(old(sched)@).1,
    {
        match deque_push_back(&mut self.bytes, byte) {
            Ok(_) => {
                self.mailbox.notify_allow_isr(sched);
                Ok(())
            },
            Err(byte) => Err(byte),
        }
    }

    /// Takes the oldest byte for a reader that was notified, and reports a
    /// timeout for one that was not.
    fn take_byte(&mut self, notified: bool) -> (r: Result<u8, UartError>)
        requires
            notified ==> deque_contents(old(self).bytes).len() > 0,
            deque_contents(old(self).bytes).len() <= RX_CAPACITY,
        ensures
            final(self).mailbox == old(self).mailbox,
            final(self).reading == old(self).reading,
            !notified ==> r == Err::<u8, UartError>(UartError::Timeout) && final(self)@ == old(self)@,
            notified ==> r == Ok::<u8, UartError>(old(self)@.bytes[0]) && final(self)@ == old(
                self,
            )@.popped(),
    {
        if notified {
            let byte = deque_pop_front(&mut self.bytes).unwrap();
            let left = deque_len(&self.bytes);
            if left > self.max_size {
                self.max_size = left;
            }
            Ok(byte)
        } else {
            Err(UartError::Timeout)
        }
    }

    /// Reads one byte on behalf of the running task, waiting for at most
    /// `timeout_ms` ticks.
    ///
    /// If a byte is there already, the result is `Done` with the oldest
    /// byte. Otherwise the task is parked on the mailbox and the result is
    /// `Park`: the task must yield, and call
    /// [`resume_read_byte_with_timeout`](Self::resume_read_byte_with_timeout)
    /// once it runs again.
    ///
    /// Only a task may read, and only one at a time.
    pub fn read_byte_with_timeout(&mut self, sched: &mut Scheduler, timeout_ms: u32) -> (step: Step<
        Result<u8, UartError>,
        (),
    >)
        requires
            old(self).wf(),
            !old(self)@.reading,
            old(sched).wf(),
            old(sched)@.task_context(),
            old(sched)@.suspended < usize::MAX,
        ensures
            final(self).wf(),
            final(sched).wf(),
            final(sched)@ == old(self)@.mailbox.awaited(old(sched)@, timeout_ms).1,
            old(self)@.credit() > 0 ==> step == Step::<Result<u8, UartError>, ()>::Done(
                Ok(old(self)@.bytes[0]),
            ) && final(self)@ == (UsartSerialView {
                mailbox: old(self)@.mailbox.awaited(old(sched)@, timeout_ms).0,
                ..old(self)@.popped()
            }),
            old(self)@.credit() == 0 ==> step == Step::<Result<u8, UartError>, ()>::Park(())
                && final(self)@ == (UsartSerialView {
                mailbox: old(self)@.mailbox.awaited(old(sched)@, timeout_ms).0,
                reading: true,
                ..old(self)@
            }),
    {
        match self.mailbox.wait_until_timeout(sched, timeout_ms) {
            Step::Done(notified) => Step::Done(self.take_byte(notified)),
            Step::Park(_) => {
                self.reading = true;
                Step::Park(())
            },
        }
    }

    /// Completes a read after the parked reader was chosen to run again:
    /// the oldest byte if the reader was woken by a notification, and
    /// [`UartError::Timeout`] if it was woken by the timeout.
    pub fn resume_read_byte_with_timeout(&mut self, sched: &mut Scheduler) -> (r: Result<
        u8,
        UartError,
    >)
        requires
            old(self).wf(),
            old(self)@.reading,
            old(sched).wf(),
            old(sched)@.task_context(),
            old(sched)@.suspended < usize::MAX,
        ensures
            final(self).wf(),
            final(sched).wf(),
            final(sched)@ == old(self)@.mailbox.resumed(old(sched)@).1,
            old(self)@.mailbox.resumed(old(sched)@).2 ==> r == Ok::<u8, UartError>(
                old(self)@.bytes[0],
            ) && final(self)@ == (UsartSerialView {
                mailbox: old(self)@.mailbox.resumed(old(sched)@).0,
                reading: false,
                ..old(self)@.popped()
            }),
            !old(self)@.mailbox.resumed(old(sched)@).2 ==> r == Err::<u8, UartError>(
                UartError::Timeout,
            ) && final(self)@ == (UsartSerialView {
                mailbox: old(self)@.mailbox.resumed(old(sched)@).0,
                reading: false,
                ..old(self)@
            }),
    {
        let notified = self.mailbox.resume_wait_until_timeout(sched);
        self.reading = false;
        self.take_byte(notified)
    }
}

} // verus!
