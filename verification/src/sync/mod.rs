//! Synchronization objects that interrupt handlers may use at any instant.

pub mod soft_lock;
pub mod mailbox;
pub mod mutex;
pub mod semaphore;
pub mod channel;
