//! One task as the executor stores it.

use vstd::prelude::*;

verus! {

/// One schedulable unit: a suspended computation and the count of who shares
/// it.
///
/// The task is shared by its entries in the ready queue and by the waker
/// handles that are outstanding for it. While the task is out for a drive
/// step the computation is with whoever drives it, and `computation` is
/// `None`.
pub struct Task<T> {
    /// The computation, unless it is out for a drive step.
    pub computation: Option<T>,
    /// Waker handles that are outstanding for the task.
    pub wakers: u64,
    /// Entries that the task has in the ready queue.
    pub queued: usize,
}

impl<T> Task<T> {
    /// Shares of the task outside the run loop: waker handles and queue
    /// entries.
    pub open spec fn shares(self) -> nat {
        (self.wakers + self.queued) as nat
    }

    /// Wraps a computation that was just submitted: the task's one share is
    /// its entry in the ready queue.
    pub fn new(computation: T) -> (task: Self)
        ensures
            task == (Task { computation: Some(computation), wakers: 0, queued: 1 }),
    {
        Task { computation: Some(computation), wakers: 0, queued: 1 }
    }

    /// Whether any waker handle or queue entry refers to the task.
    pub fn is_shared(&self) -> (shared: bool)
        ensures
            shared == (self.shares() > 0),
    {
        self.wakers > 0 || self.queued > 0
    }
}

} // verus!
