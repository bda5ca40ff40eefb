//! The executor as a mathematical state machine.
//!
//! Every operation of [`crate::executor::Executor`] is described by a function
//! on [`ExecutorState`]; the laws in [`crate::laws`] are proved about these
//! functions.

use crate::queue::{occurrences, TaskId};
use vstd::prelude::*;

verus! {

/// Where one run-loop invocation stands.
#[derive(Clone, Copy, Debug, PartialEq, Eq, Structural)]
pub enum Phase {
    /// The run loop has not started: no executor is bound.
    Idle,
    /// The root computation is being polled. `drained` tells whether the poll
    /// follows a drain (true) or precedes one (false).
    PollingRoot { drained: bool },
    /// Task `current` is being driven one step; after it, `remaining` more
    /// entries at the head of the queue belong to the same drain.
    Draining { current: TaskId, remaining: usize },
    /// The thread is blocked in the reactor's wait.
    Blocked,
    /// The root computation was ready and the run loop has returned.
    Done,
}

/// What the outside world reports back to the run loop.
#[derive(Debug, PartialEq, Eq)]
pub enum Event<T> {
    /// The run loop is entered.
    Start,
    /// The root computation was polled; `ready` tells whether it completed.
    RootPolled { ready: bool },
    /// The task handed out last was driven one step; `ready` tells whether it
    /// completed. The computation comes back as the step left it.
    Driven { ready: bool, computation: T },
    /// The reactor's wait returned.
    Woken,
}

/// What the run loop asks the outside world to do next.
#[derive(Debug, PartialEq, Eq)]
pub enum Action<T> {
    /// Poll the root computation with a waker that does nothing.
    PollRoot,
    /// Drive `computation`, which is that of `task`, one step with a waker
    /// bound to the task.
    Drive { task: TaskId, computation: T },
    /// Block on the reactor until it has woken at least one task.
    Wait,
    /// Leave the run loop with the root computation's result.
    Return,
}

/// Why an operation was refused. A refused operation changes nothing.
#[derive(Clone, Copy, Debug, PartialEq, Eq, Structural)]
pub enum ExecutorError {
    /// The event does not answer the action that the run loop asked for last.
    UnexpectedEvent,
    /// No storage exists for the task: it was never spawned or is released.
    UnknownTask,
    /// No waker of the task can be at hand for the operation.
    NoWaker,
    /// The task has as many waker handles as can be counted.
    TooManyWakers,
    /// Every task identifier has been handed out.
    TooManyTasks,
    /// The ready queue has as many entries as can be counted.
    QueueFull,
}

/// The abstract state of an executor.
#[verifier::ext_equal]
pub struct ExecutorState<T> {
    /// The ready queue, head first.
    pub queue: Seq<TaskId>,
    /// For each task whose storage exists, the number of waker handles that
    /// are outstanding for it.
    pub wakers: Map<TaskId, nat>,
    /// The computation of each task that has storage and is not out for a
    /// drive step.
    pub store: Map<TaskId, T>,
    /// Where the run loop stands.
    pub phase: Phase,
    /// The identifier that the next spawned task receives.
    pub next_id: TaskId,
}

impl<T> ExecutorState<T> {
    /// The state of a freshly made executor.
    pub open spec fn initial() -> Self {
        ExecutorState {
            queue: Seq::empty(),
            wakers: Map::empty(),
            store: Map::empty(),
            phase: Phase::Idle,
            next_id: 0,
        }
    }

    /// Whether the storage of task `id` exists.
    pub open spec fn live(self, id: TaskId) -> bool {
        self.wakers.dom().contains(id)
    }

    /// Outstanding waker handles of task `id`.
    pub open spec fn waker_count(self, id: TaskId) -> nat {
        if self.live(id) {
            self.wakers[id]
        } else {
            0
        }
    }

    /// Queue entries of task `id`.
    pub open spec fn queued(self, id: TaskId) -> nat {
        occurrences(self.queue, id)
    }

    /// Shares of task `id` that the run loop itself holds: while it drives the
    /// task, the handle it popped and the waker it lends to the drive step.
    pub open spec fn held(self, id: TaskId) -> nat {
        match self.phase {
            Phase::Draining { current, .. } => if current == id {
                2
            } else {
                0
            },
            _ => 0,
        }
    }

    /// All shares of task `id`: waker handles, queue entries and what the run
    /// loop holds.
    pub open spec fn shares(self, id: TaskId) -> nat {
        self.waker_count(id) + self.queued(id) + self.held(id)
    }

    /// Whether an executor is bound, that is, a run loop is under way.
    pub open spec fn bound(self) -> bool {
        self.phase !is Idle && self.phase !is Done
    }

    /// Whether a waker of task `id` can be at hand: one that was handed out,
    /// or the one lent to the running drive step.
    pub open spec fn has_waker(self, id: TaskId) -> bool {
        self.live(id) && (self.wakers[id] > 0 || self.held(id) > 0)
    }

    /// Whether a waker handle of task `id` is outstanding that its holder may
    /// give up.
    pub open spec fn owns_waker(self, id: TaskId) -> bool {
        self.live(id) && self.wakers[id] > 0
    }

    /// The invariant of every reachable state: storage exists exactly for the
    /// tasks that are shared, it holds the computation of every task but the
    /// one that is out for a drive step, identifiers are handed out in order,
    /// and a drain never counts on more entries than the queue holds.
    pub open spec fn wf(self) -> bool {
        &&& self.wakers.dom().finite()
        &&& forall|id: TaskId|
            #![trigger self.live(id)]
            #![trigger self.shares(id)]
            self.live(id) <==> self.shares(id) > 0
        &&& forall|id: TaskId| #[trigger] self.live(id) ==> id < self.next_id
        &&& forall|id: TaskId| #[trigger]
            self.store.contains_key(id) <==> self.live(id) && self.held(id) == 0
        &&& self.queue.len() <= usize::MAX
        &&& self.phase matches Phase::Draining { remaining, .. } ==> remaining <= self.queue.len()
    }

    /// Whether the queue can take one more entry.
    pub open spec fn has_room(self) -> bool {
        self.queue.len() < usize::MAX
    }

    /// Submitting a task: it receives the next identifier and one queue
    /// entry, and its computation goes into storage.
    pub open spec fn spawn(self, computation: T) -> Self {
        ExecutorState {
            queue: self.queue.push(self.next_id),
            wakers: self.wakers.insert(self.next_id, 0),
            store: self.store.insert(self.next_id, computation),
            next_id: (self.next_id + 1) as TaskId,
            ..self
        }
    }

    /// What submitting a task does: the new state and the task's identifier,
    /// or the reason for refusing.
    pub open spec fn try_spawn(self, computation: T) -> Result<(Self, TaskId), ExecutorError> {
        if self.next_id == u64::MAX {
            Err(ExecutorError::TooManyTasks)
        } else if !self.has_room() {
            Err(ExecutorError::QueueFull)
        } else {
            Ok((self.spawn(computation), self.next_id))
        }
    }

    /// Cloning a waker of task `id`: one more handle.
    pub open spec fn clone_waker(self, id: TaskId) -> Self {
        ExecutorState { wakers: self.wakers.insert(id, self.wakers[id] + 1), ..self }
    }

    /// What cloning a waker of task `id` does.
    pub open spec fn try_clone_waker(self, id: TaskId) -> Result<Self, ExecutorError> {
        if !self.live(id) {
            Err(ExecutorError::UnknownTask)
        } else if !self.has_waker(id) {
            Err(ExecutorError::NoWaker)
        } else if self.wakers[id] >= u64::MAX {
            Err(ExecutorError::TooManyWakers)
        } else {
            Ok(self.clone_waker(id))
        }
    }

    /// Waking task `id` by value: the handle turns into a queue entry.
    pub open spec fn wake(self, id: TaskId) -> Self {
        ExecutorState {
            queue: self.queue.push(id),
            wakers: self.wakers.insert(id, (self.wakers[id] - 1) as nat),
            ..self
        }
    }

    /// What waking task `id` by value does.
    pub open spec fn try_wake(self, id: TaskId) -> Result<Self, ExecutorError> {
        if !self.live(id) {
            Err(ExecutorError::UnknownTask)
        } else if !self.owns_waker(id) {
            Err(ExecutorError::NoWaker)
        } else if !self.has_room() {
            Err(ExecutorError::QueueFull)
        } else {
            Ok(self.wake(id))
        }
    }

    /// Waking task `id` by reference: one more queue entry, no handle used up.
    pub open spec fn wake_by_ref(self, id: TaskId) -> Self {
        ExecutorState { queue: self.queue.push(id), ..self }
    }

    /// What waking task `id` by reference does.
    pub open spec fn try_wake_by_ref(self, id: TaskId) -> Result<Self, ExecutorError> {
        if !self.live(id) {
            Err(ExecutorError::UnknownTask)
        } else if !self.has_waker(id) {
            Err(ExecutorError::NoWaker)
        } else if !self.has_room() {
            Err(ExecutorError::QueueFull)
        } else {
            Ok(self.wake_by_ref(id))
        }
    }

    /// Whether giving up one share of task `id` releases its storage.
    pub open spec fn last_share(self, id: TaskId) -> bool {
        self.shares(id) == 1
    }

    /// Dropping a waker of task `id`: one handle less, and the storage goes
    /// with the last share, the computation with it.
    pub open spec fn drop_waker(self, id: TaskId) -> Self {
        if self.last_share(id) {
            ExecutorState {
                wakers: self.wakers.remove(id),
                store: self.store.remove(id),
                ..self
            }
        } else {
            ExecutorState { wakers: self.wakers.insert(id, (self.wakers[id] - 1) as nat), ..self }
        }
    }

    /// What dropping a waker of task `id` does: the new state and whether the
    /// task's storage was released.
    pub open spec fn try_drop_waker(self, id: TaskId) -> Result<(Self, bool), ExecutorError> {
        if !self.live(id) {
            Err(ExecutorError::UnknownTask)
        } else if !self.owns_waker(id) {
            Err(ExecutorError::NoWaker)
        } else {
            Ok((self.drop_waker(id), self.last_share(id)))
        }
    }

    /// The run loop takes the head of the queue and hands it out to be
    /// driven; `remaining` entries of the drain are left after it.
    pub open spec fn begin_drive(self, remaining: usize) -> (Self, Action<T>) {
        (
            ExecutorState {
                queue: self.queue.drop_first(),
                store: self.store.remove(self.queue[0]),
                phase: Phase::Draining { current: self.queue[0], remaining },
                ..self
            },
            Action::Drive { task: self.queue[0], computation: self.store[self.queue[0]] },
        )
    }

    /// The run loop gives up what it held of task `current` and goes on to
    /// `phase`. If nothing else shares the task, its storage goes and the
    /// computation that came back with it; otherwise the computation returns
    /// to storage.
    pub open spec fn end_drive(self, current: TaskId, computation: T, phase: Phase) -> Self {
        if self.wakers[current] == 0 && self.queued(current) == 0 {
            ExecutorState { wakers: self.wakers.remove(current), phase, ..self }
        } else {
            ExecutorState { store: self.store.insert(current, computation), phase, ..self }
        }
    }

    /// One decision of the run loop: the state and the action that follow
    /// `event`, or `None` where the event does not answer the last action.
    pub open spec fn next(self, event: Event<T>) -> Option<(Self, Action<T>)> {
        match (self.phase, event) {
            (Phase::Idle, Event::Start) => Some(
                (
                    ExecutorState { phase: Phase::PollingRoot { drained: false }, ..self },
                    Action::PollRoot,
                ),
            ),
            (Phase::PollingRoot { .. }, Event::RootPolled { ready: true }) => Some(
                (ExecutorState { phase: Phase::Done, ..self }, Action::Return),
            ),
            (Phase::PollingRoot { drained: false }, Event::RootPolled { ready: false }) => {
                if self.queue.len() == 0 {
                    Some(
                        (
                            ExecutorState { phase: Phase::PollingRoot { drained: true }, ..self },
                            Action::PollRoot,
                        ),
                    )
                } else {
                    Some(self.begin_drive((self.queue.len() - 1) as usize))
                }
            },
            (Phase::PollingRoot { drained: true }, Event::RootPolled { ready: false }) => {
                if self.queue.len() == 0 {
                    Some((ExecutorState { phase: Phase::Blocked, ..self }, Action::Wait))
                } else {
                    Some(
                        (
                            ExecutorState { phase: Phase::PollingRoot { drained: false }, ..self },
                            Action::PollRoot,
                        ),
                    )
                }
            },
            (Phase::Draining { current, remaining }, Event::Driven { computation, .. }) => {
                let ended = self.end_drive(
                    current,
                    computation,
                    Phase::PollingRoot { drained: true },
                );
                if remaining == 0 || self.queue.len() == 0 {
                    Some((ended, Action::PollRoot))
                } else {
                    Some(ended.begin_drive((remaining - 1) as usize))
                }
            },
            (Phase::Blocked, Event::Woken) => Some(
                (
                    ExecutorState { phase: Phase::PollingRoot { drained: false }, ..self },
                    Action::PollRoot,
                ),
            ),
            _ => None,
        }
    }
}

} // verus!
