//! The executor: ready queue, task storage and the run loop's decisions.

use crate::model::{Action, Event, ExecutorError, ExecutorState, Phase};
use crate::queue::{
    lemma_occurrences_bounds, lemma_occurrences_drop_first, lemma_occurrences_push, occurrences,
    TaskId, TaskQueue,
};
use crate::shares::{
    lemma_begin_drive_wf, lemma_clone_waker_wf, lemma_drop_waker_wf, lemma_end_drive_wf,
    lemma_next_wf, lemma_spawn_wf, lemma_wake_by_ref_wf, lemma_wake_wf,
};
use crate::task::Task;
use std::collections::HashMap;
use vstd::prelude::*;

verus! {

broadcast use vstd::std_specs::hash::group_hash_axioms;

/// The number of outstanding waker handles of each stored task.
spec fn waker_counts<T>(tasks: Map<TaskId, Task<T>>) -> Map<TaskId, nat> {
    Map::new(|id: TaskId| tasks.contains_key(id), |id: TaskId| tasks[id].wakers as nat)
}

/// The computation of each stored task that is not out for a drive step.
spec fn computations<T>(tasks: Map<TaskId, Task<T>>) -> Map<TaskId, T> {
    Map::new(
        |id: TaskId| tasks.contains_key(id) && tasks[id].computation is Some,
        |id: TaskId| tasks[id].computation->0,
    )
}

/// Schedules tasks on one thread: owns the ready queue and the storage of
/// every task, and decides each step of the run loop.
pub struct Executor<T> {
    local_queue: TaskQueue,
    tasks: HashMap<TaskId, Task<T>>,
    next_id: TaskId,
    phase: Phase,
}

impl<T> View for Executor<T> {
    type V = ExecutorState<T>;

    closed spec fn view(&self) -> ExecutorState<T> {
        ExecutorState {
            queue: self.local_queue@,
            wakers: waker_counts(self.tasks@),
            store: computations(self.tasks@),
            phase: self.phase,
            next_id: self.next_id,
        }
    }
}

impl<T> Default for Executor<T> {
    /// A new executor: nothing queued, no task, no run loop under way.
    fn default() -> (executor: Self)
        ensures
            executor.wf(),
            executor@ == ExecutorState::<T>::initial(),
    {
        Self::new()
    }
}

impl<T> Executor<T> {
    /// Whether each task's record agrees with the ready queue.
    pub closed spec fn consistent(&self) -> bool {
        forall|id: TaskId| #[trigger]
            self.tasks@.contains_key(id) ==> self.tasks@[id].queued == occurrences(
                self.local_queue@,
                id,
            )
    }

    /// The executor's invariant: its state is a well-formed one, and its
    /// records agree with its queue.
    pub open spec fn wf(&self) -> bool {
        self@.wf() && self.consistent()
    }

    /// A new executor: nothing queued, no task, no run loop under way.
    pub fn new() -> (executor: Self)
        ensures
            executor.wf(),
            executor@ == ExecutorState::<T>::initial(),
    {
        let executor = Executor {
            local_queue: TaskQueue::new(),
            tasks: HashMap::new(),
            next_id: 0,
            phase: Phase::Idle,
        };
        proof {
            assert(executor@ =~= ExecutorState::<T>::initial());
        }
        executor
    }

    /// Whether a run loop is under way, so that tasks can be submitted and
    /// woken.
    pub fn is_bound(&self) -> (bound: bool)
        ensures
            bound == self@.bound(),
    {
        match self.phase {
            Phase::Idle => false,
            Phase::Done => false,
            _ => true,
        }
    }

    /// Where the run loop stands.
    pub fn phase(&self) -> (phase: Phase)
        ensures
            phase == self@.phase,
    {
        self.phase
    }

    /// Number of entries in the ready queue.
    pub fn queue_len(&self) -> (n: usize)
        ensures
            n == self@.queue.len(),
    {
        self.local_queue.len()
    }

    /// Whether the storage of task `id` exists.
    pub fn is_live(&self, id: TaskId) -> (live: bool)
        ensures
            live == self@.live(id),
    {
        self.tasks.contains_key(&id)
    }

    /// Number of waker handles that are outstanding for task `id`.
    pub fn waker_count(&self, id: TaskId) -> (n: u64)
        ensures
            n == self@.waker_count(id),
    {
        match self.tasks.get(&id) {
            Some(task) => task.wakers,
            None => 0,
        }
    }

    /// Number of entries that task `id` has in the ready queue.
    pub fn queued(&self, id: TaskId) -> (n: usize)
        requires
            self.wf(),
        ensures
            n == self@.queued(id),
    {
        proof {
            assert(self@.live(id) <==> self@.shares(id) > 0);
        }
        match self.tasks.get(&id) {
            Some(task) => task.queued,
            None => 0,
        }
    }

    /// Whether the run loop is driving task `id` right now.
    fn is_driving(&self, id: TaskId) -> (driving: bool)
        ensures
            driving == (self@.held(id) > 0),
    {
        match self.phase {
            Phase::Draining { current, .. } => current == id,
            _ => false,
        }
    }

    /// Submits a task: wraps `computation`, gives the task the next
    /// identifier and an entry at the tail of the ready queue, and returns the
    /// identifier.
    ///
    /// Refused when every identifier has been handed out or the queue is
    /// full; the computation is then dropped.
    pub fn spawn(&mut self, computation: T) -> (spawned: Result<TaskId, ExecutorError>)
        requires
            old(self).wf(),
            old(self)@.bound(),
        ensures
            final(self).wf(),
            match old(self)@.try_spawn(computation) {
                Ok((state, id)) => spawned == Ok::<TaskId, ExecutorError>(id) && final(self)@
                    == state,
                Err(e) => spawned == Err::<TaskId, ExecutorError>(e)
                    && final(self)@ == old(self)@,
            },
    {
        if self.next_id == u64::MAX {
            return Err(ExecutorError::TooManyTasks);
        }
        if self.local_queue.len() == usize::MAX {
            return Err(ExecutorError::QueueFull);
        }
        let id = self.next_id;
        proof {
            lemma_spawn_wf(self@, computation);
            assert forall|other: TaskId| other != id implies occurrences(
                self.local_queue@.push(id),
                other,
            ) == occurrences(self.local_queue@, other) by {
                lemma_occurrences_push(self.local_queue@, id, other);
            }
        }
        self.local_queue.push(id);
        self.tasks.insert(id, Task::new(computation));
        self.next_id = id + 1;
        proof {
            assert(self@ =~= old(self)@.spawn(computation));
        }
        Ok(id)
    }

    /// Puts back the record of task `id` with its counts set anew.
    fn recount(&mut self, id: TaskId, wakers: u64, queued: usize)
        requires
            old(self).tasks@.contains_key(id),
        ensures
            final(self).tasks@ == old(self).tasks@.insert(
                id,
                Task { computation: old(self).tasks@[id].computation, wakers, queued },
            ),
            final(self).local_queue == old(self).local_queue,
            final(self).next_id == old(self).next_id,
            final(self).phase == old(self).phase,
    {
        match self.tasks.remove(&id) {
            Some(task) => {
                self.tasks.insert(id, Task { computation: task.computation, wakers, queued });
            },
            None => {},
        }
    }

    /// Clones a waker of task `id`: the task has one more waker handle.
    ///
    /// Refused when the task has no storage, when no waker of it can be at
    /// hand to clone, or when its handles cannot be counted any further.
    pub fn clone_waker(&mut self, id: TaskId) -> (cloned: Result<(), ExecutorError>)
        requires
            old(self).wf(),
        ensures
            final(self).wf(),
            match old(self)@.try_clone_waker(id) {
                Ok(state) => cloned is Ok && final(self)@ == state,
                Err(e) => cloned == Err::<(), ExecutorError>(e) && final(self)@ == old(self)@,
            },
    {
        let (wakers, queued) = match self.tasks.get(&id) {
            Some(task) => (task.wakers, task.queued),
            None => {
                return Err(ExecutorError::UnknownTask);
            },
        };
        if wakers == 0 && !self.is_driving(id) {
            return Err(ExecutorError::NoWaker);
        }
        if wakers == u64::MAX {
            return Err(ExecutorError::TooManyWakers);
        }
        proof {
            lemma_clone_waker_wf(self@, id);
        }
        self.recount(id, wakers + 1, queued);
        proof {
            assert(self@ =~= old(self)@.clone_waker(id));
        }
        Ok(())
    }

    /// Wakes task `id` through a waker that is given up by the call: the
    /// handle turns into an entry at the tail of the ready queue.
    ///
    /// Refused when the task has no storage, when no waker handle of it is
    /// outstanding, or when the queue is full.
    pub fn wake(&mut self, id: TaskId) -> (woken: Result<(), ExecutorError>)
        requires
            old(self).wf(),
            old(self)@.bound(),
        ensures
            final(self).wf(),
            match old(self)@.try_wake(id) {
                Ok(state) => woken is Ok && final(self)@ == state,
                Err(e) => woken == Err::<(), ExecutorError>(e) && final(self)@ == old(self)@,
            },
    {
        let (wakers, queued) = match self.tasks.get(&id) {
            Some(task) => (task.wakers, task.queued),
            None => {
                return Err(ExecutorError::UnknownTask);
            },
        };
        if wakers == 0 {
            return Err(ExecutorError::NoWaker);
        }
        if self.local_queue.len() == usize::MAX {
            return Err(ExecutorError::QueueFull);
        }
        proof {
            lemma_wake_wf(self@, id);
            self.lemma_push_consistent(id);
        }
        self.local_queue.push(id);
        self.recount(id, wakers - 1, queued + 1);
        proof {
            assert(self@ =~= old(self)@.wake(id));
        }
        Ok(())
    }

    /// Wakes task `id` through a waker that its holder keeps: the task gets
    /// one more entry at the tail of the ready queue.
    ///
    /// Refused when the task has no storage, when no waker of it can be at
    /// hand, or when the queue is full.
    pub fn wake_by_ref(&mut self, id: TaskId) -> (woken: Result<(), ExecutorError>)
        requires
            old(self).wf(),
            old(self)@.bound(),
        ensures
            final(self).wf(),
            match old(self)@.try_wake_by_ref(id) {
                Ok(state) => woken is Ok && final(self)@ == state,
                Err(e) => woken == Err::<(), ExecutorError>(e) && final(self)@ == old(self)@,
            },
    {
        let (wakers, queued) = match self.tasks.get(&id) {
            Some(task) => (task.wakers, task.queued),
            None => {
                return Err(ExecutorError::UnknownTask);
            },
        };
        if wakers == 0 && !self.is_driving(id) {
            return Err(ExecutorError::NoWaker);
        }
        if self.local_queue.len() == usize::MAX {
            return Err(ExecutorError::QueueFull);
        }
        proof {
            lemma_wake_by_ref_wf(self@, id);
            self.lemma_push_consistent(id);
        }
        self.local_queue.push(id);
        self.recount(id, wakers, queued + 1);
        proof {
            assert(self@ =~= old(self)@.wake_by_ref(id));
        }
        Ok(())
    }

    /// What one more queue entry of task `id` does to the count of each
    /// task's entries.
    proof fn lemma_push_consistent(&self, id: TaskId)
        requires
            self.consistent(),
            self.tasks@.contains_key(id),
            self.local_queue@.len() < usize::MAX,
        ensures
            self.tasks@[id].queued < usize::MAX,
            occurrences(self.local_queue@.push(id), id) == self.tasks@[id].queued + 1,
            forall|other: TaskId|
                other != id ==> occurrences(self.local_queue@.push(id), other) == occurrences(
                    self.local_queue@,
                    other,
                ),
    {
        lemma_occurrences_bounds(self.local_queue@, id);
        lemma_occurrences_push(self.local_queue@, id, id);
        assert forall|other: TaskId| other != id implies occurrences(
            self.local_queue@.push(id),
            other,
        ) == occurrences(self.local_queue@, other) by {
            lemma_occurrences_push(self.local_queue@, id, other);
        }
    }

    /// Drops a waker of task `id`: the task has one handle less. Returns
    /// whether that was the task's last share, in which case its storage is
    /// released and its computation dropped.
    ///
    /// Refused when the task has no storage or when no waker handle of it is
    /// outstanding.
    pub fn drop_waker(&mut self, id: TaskId) -> (dropped: Result<bool, ExecutorError>)
        requires
            old(self).wf(),
        ensures
            final(self).wf(),
            match old(self)@.try_drop_waker(id) {
                Ok((state, released)) => dropped == Ok::<bool, ExecutorError>(released)
                    && final(self)@ == state,
                Err(e) => dropped == Err::<bool, ExecutorError>(e) && final(self)@ == old(self)@,
            },
    {
        let (wakers, queued) = match self.tasks.get(&id) {
            Some(task) => (task.wakers, task.queued),
            None => {
                return Err(ExecutorError::UnknownTask);
            },
        };
        if wakers == 0 {
            return Err(ExecutorError::NoWaker);
        }
        proof {
            lemma_drop_waker_wf(self@, id);
        }
        if wakers > 1 || queued > 0 || self.is_driving(id) {
            self.recount(id, wakers - 1, queued);
            proof {
                assert(self@ =~= old(self)@.drop_waker(id));
            }
            Ok(false)
        } else {
            self.tasks.remove(&id);
            proof {
                assert(self@ =~= old(self)@.drop_waker(id));
            }
            Ok(true)
        }
    }

    /// Takes the head of the ready queue and hands its computation out to be
    /// driven, with `remaining` entries of the drain left after it.
    fn begin_drive(&mut self, remaining: usize) -> (action: Action<T>)
        requires
            old(self).wf(),
            old(self)@.phase !is Draining,
            remaining < old(self)@.queue.len(),
        ensures
            final(self).wf(),
            final(self)@ == old(self)@.begin_drive(remaining).0,
            action == old(self)@.begin_drive(remaining).1,
    {
        proof {
            lemma_begin_drive_wf(self@, remaining);
            assert(self@.store.contains_key(self.local_queue@[0]));
            assert forall|other: TaskId| #[trigger]
                self.tasks@.contains_key(other) implies occurrences(
                self.local_queue@.drop_first(),
                other,
            ) == self.tasks@[other].queued - if other == self.local_queue@[0] {
                1int
            } else {
                0int
            } by {
                lemma_occurrences_drop_first(self.local_queue@, other);
            }
        }
        let id = self.local_queue.pop().unwrap();
        let task = self.tasks.remove(&id).unwrap();
        let computation = task.computation.unwrap();
        self.tasks.insert(id, Task { computation: None, wakers: task.wakers, queued: task.queued - 1 });
        self.phase = Phase::Draining { current: id, remaining };
        proof {
            assert(self@ =~= old(self)@.begin_drive(remaining).0);
        }
        Action::Drive { task: id, computation }
    }

    /// Gives up what the run loop held of the task it drove and goes on to
    /// `phase`: the computation returns to storage, or is dropped with the
    /// storage if nothing else shares the task.
    fn end_drive(&mut self, current: TaskId, computation: T, phase: Phase)
        requires
            old(self).wf(),
            old(self)@.phase is Draining,
            old(self)@.phase->current == current,
            phase !is Draining,
        ensures
            final(self).wf(),
            final(self)@ == old(self)@.end_drive(current, computation, phase),
    {
        proof {
            lemma_end_drive_wf(self@, computation, phase);
        }
        let task = self.tasks.remove(&current).unwrap();
        if task.is_shared() {
            self.tasks.insert(
                current,
                Task { computation: Some(computation), wakers: task.wakers, queued: task.queued },
            );
        }
        self.phase = phase;
        proof {
            assert(self@ =~= old(self)@.end_drive(current, computation, phase));
        }
    }

    /// Decides the next step of the run loop.
    ///
    /// The caller reports with `event` what the last action came to and
    /// performs the action returned: it polls the root computation, drives the
    /// computation handed out, blocks on the reactor, or leaves the loop. The
    /// loop polls the root; while the root is pending it drains the ready
    /// queue once, driving in order the entries that were queued when the
    /// drain began; then it polls the root again, and blocks only if the root
    /// is still pending and the queue is empty.
    ///
    /// An event that does not answer the last action is refused, and a
    /// computation that came with it is dropped.
    pub fn block_on(&mut self, event: Event<T>) -> (decided: Result<Action<T>, ExecutorError>)
        requires
            old(self).wf(),
        ensures
            final(self).wf(),
            match old(self)@.next(event) {
                Some((state, action)) => decided == Ok::<Action<T>, ExecutorError>(action)
                    && final(self)@ == state,
                None => decided == Err::<Action<T>, ExecutorError>(ExecutorError::UnexpectedEvent)
                    && final(self)@ == old(self)@,
            },
    {
        proof {
            if self@.next(event) is Some {
                lemma_next_wf(self@, event);
            }
        }
        match (self.phase, event) {
            (Phase::Idle, Event::Start) => {
                self.phase = Phase::PollingRoot { drained: false };
                Ok(Action::PollRoot)
            },
            (Phase::PollingRoot { .. }, Event::RootPolled { ready: true }) => {
                self.phase = Phase::Done;
                Ok(Action::Return)
            },
            (Phase::PollingRoot { drained: false }, Event::RootPolled { ready: false }) => {
                let queued = self.local_queue.len();
                if queued == 0 {
                    self.phase = Phase::PollingRoot { drained: true };
                    Ok(Action::PollRoot)
                } else {
                    Ok(self.begin_drive(queued - 1))
                }
            },
            (Phase::PollingRoot { drained: true }, Event::RootPolled { ready: false }) => {
                if self.local_queue.is_empty() {
                    self.phase = Phase::Blocked;
                    Ok(Action::Wait)
                } else {
                    self.phase = Phase::PollingRoot { drained: false };
                    Ok(Action::PollRoot)
                }
            },
            (Phase::Draining { current, remaining }, Event::Driven { computation, .. }) => {
                self.end_drive(current, computation, Phase::PollingRoot { drained: true });
                if remaining == 0 || self.local_queue.is_empty() {
                    Ok(Action::PollRoot)
                } else {
                    Ok(self.begin_drive(remaining - 1))
                }
            },
            (Phase::Blocked, Event::Woken) => {
                self.phase = Phase::PollingRoot { drained: false };
                Ok(Action::PollRoot)
            },
            _ => Err(ExecutorError::UnexpectedEvent),
        }
    }
}

} // verus!
