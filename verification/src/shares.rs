//! Every operation keeps the executor's invariant, and changes the share
//! count of a task by exactly what the operation stands for.

use crate::model::{Event, ExecutorState, Phase};
use crate::queue::{lemma_occurrences_drop_first, lemma_occurrences_push, TaskId};
use vstd::prelude::*;

verus! {

/// A freshly made executor is well formed and shares nothing.
pub proof fn lemma_initial_wf<T>()
    ensures
        ExecutorState::<T>::initial().wf(),
        forall|id: TaskId| ExecutorState::<T>::initial().shares(id) == 0,
{
}

/// Submitting a task creates its storage with exactly one share, the queue
/// entry, and leaves every other task's shares alone.
pub proof fn lemma_spawn_wf<T>(s: ExecutorState<T>, computation: T)
    requires
        s.wf(),
        s.try_spawn(computation) is Ok,
    ensures
        s.spawn(computation).wf(),
        !s.live(s.next_id),
        s.spawn(computation).live(s.next_id),
        s.spawn(computation).shares(s.next_id) == 1,
        forall|id: TaskId| id != s.next_id ==> s.spawn(computation).shares(id) == s.shares(id),
{
    let t = s.spawn(computation);
    assert forall|id: TaskId| t.shares(id) == s.shares(id) + if id == s.next_id {
        1nat
    } else {
        0nat
    } by {
        lemma_occurrences_push(s.queue, s.next_id, id);
    }
    assert(forall|id: TaskId| t.live(id) <==> t.shares(id) > 0);
}

/// Cloning a waker adds exactly one share to its task and touches no other.
pub proof fn lemma_clone_waker_wf<T>(s: ExecutorState<T>, task: TaskId)
    requires
        s.wf(),
        s.try_clone_waker(task) is Ok,
    ensures
        s.clone_waker(task).wf(),
        s.clone_waker(task).shares(task) == s.shares(task) + 1,
        forall|id: TaskId| id != task ==> s.clone_waker(task).shares(id) == s.shares(id),
        forall|id: TaskId| s.clone_waker(task).live(id) == s.live(id),
{
    let t = s.clone_waker(task);
    assert forall|id: TaskId| t.live(id) <==> t.shares(id) > 0 by {
        assert(s.live(id) <==> s.shares(id) > 0);
    }
    assert forall|id: TaskId| t.live(id) implies id < t.next_id by {
        assert(s.live(id));
    }
}

/// Waking by value turns one waker handle into one queue entry: the task's
/// share count stays what it was, and so does every other.
pub proof fn lemma_wake_wf<T>(s: ExecutorState<T>, task: TaskId)
    requires
        s.wf(),
        s.try_wake(task) is Ok,
    ensures
        s.wake(task).wf(),
        s.wake(task).waker_count(task) + 1 == s.waker_count(task),
        s.wake(task).queued(task) == s.queued(task) + 1,
        forall|id: TaskId| s.wake(task).shares(id) == s.shares(id),
        forall|id: TaskId| s.wake(task).live(id) == s.live(id),
{
    let t = s.wake(task);
    assert forall|id: TaskId| t.shares(id) == s.shares(id) by {
        lemma_occurrences_push(s.queue, task, id);
    }
    assert forall|id: TaskId| t.live(id) implies id < t.next_id by {
        assert(s.live(id));
    }
}

/// Waking by reference adds one queue entry, hence one share, and uses up no
/// waker handle.
pub proof fn lemma_wake_by_ref_wf<T>(s: ExecutorState<T>, task: TaskId)
    requires
        s.wf(),
        s.try_wake_by_ref(task) is Ok,
    ensures
        s.wake_by_ref(task).wf(),
        s.wake_by_ref(task).waker_count(task) == s.waker_count(task),
        s.wake_by_ref(task).shares(task) == s.shares(task) + 1,
        forall|id: TaskId| id != task ==> s.wake_by_ref(task).shares(id) == s.shares(id),
        forall|id: TaskId| s.wake_by_ref(task).live(id) == s.live(id),
{
    let t = s.wake_by_ref(task);
    assert forall|id: TaskId| t.shares(id) == s.shares(id) + if id == task {
        1nat
    } else {
        0nat
    } by {
        lemma_occurrences_push(s.queue, task, id);
    }
    assert forall|id: TaskId| t.live(id) implies id < t.next_id by {
        assert(s.live(id));
    }
}

/// Dropping a waker takes exactly one share from its task and touches no
/// other; the storage goes exactly when that share was the last.
pub proof fn lemma_drop_waker_wf<T>(s: ExecutorState<T>, task: TaskId)
    requires
        s.wf(),
        s.try_drop_waker(task) is Ok,
    ensures
        s.drop_waker(task).wf(),
        s.drop_waker(task).shares(task) + 1 == s.shares(task),
        s.drop_waker(task).live(task) <==> !s.last_share(task),
        forall|id: TaskId| id != task ==> s.drop_waker(task).shares(id) == s.shares(id),
        forall|id: TaskId| id != task ==> s.drop_waker(task).live(id) == s.live(id),
{
    let t = s.drop_waker(task);
    assert forall|id: TaskId| t.live(id) <==> t.shares(id) > 0 by {
        assert(s.live(id) <==> s.shares(id) > 0);
    }
    assert forall|id: TaskId| t.live(id) implies id < t.next_id by {
        assert(s.live(id));
    }
}

/// Handing out the head of the queue moves its share from the queue to the
/// run loop and adds the share of the waker lent to the drive step.
pub proof fn lemma_begin_drive_wf<T>(s: ExecutorState<T>, remaining: usize)
    requires
        s.wf(),
        s.phase !is Draining,
        s.queue.len() > 0,
        remaining < s.queue.len(),
    ensures
        s.begin_drive(remaining).0.wf(),
        s.begin_drive(remaining).0.shares(s.queue[0]) == s.shares(s.queue[0]) + 1,
        forall|id: TaskId|
            id != s.queue[0] ==> s.begin_drive(remaining).0.shares(id) == s.shares(id),
        forall|id: TaskId| s.begin_drive(remaining).0.live(id) == s.live(id),
{
    let t = s.begin_drive(remaining).0;
    let head = s.queue[0];
    assert forall|id: TaskId| t.shares(id) == s.shares(id) + if id == head {
        1nat
    } else {
        0nat
    } by {
        lemma_occurrences_drop_first(s.queue, id);
    }
    assert forall|id: TaskId| t.live(id) implies id < t.next_id by {
        assert(s.live(id));
    }
}

/// Ending a drive step gives up the two shares that the run loop held; the
/// storage goes exactly when nothing else shared the task.
pub proof fn lemma_end_drive_wf<T>(s: ExecutorState<T>, computation: T, phase: Phase)
    requires
        s.wf(),
        s.phase is Draining,
        phase !is Draining,
    ensures
        s.end_drive(s.phase->current, computation, phase).wf(),
        s.end_drive(s.phase->current, computation, phase).shares(s.phase->current) + 2 == s.shares(
            s.phase->current,
        ),
        s.end_drive(s.phase->current, computation, phase).live(s.phase->current) <==> s.shares(
            s.phase->current,
        ) > 2,
        forall|id: TaskId|
            id != s.phase->current ==> s.end_drive(s.phase->current, computation, phase).shares(id) == s.shares(
                id,
            ),
        forall|id: TaskId|
            id != s.phase->current ==> s.end_drive(s.phase->current, computation, phase).live(id) == s.live(id),
        s.end_drive(s.phase->current, computation, phase).queue == s.queue,
        s.end_drive(s.phase->current, computation, phase).phase == phase,
{
    let current = s.phase->current;
    let t = s.end_drive(current, computation, phase);
    assert forall|id: TaskId| t.live(id) <==> t.shares(id) > 0 by {
        assert(s.live(id) <==> s.shares(id) > 0);
    }
    assert forall|id: TaskId| t.live(id) implies id < t.next_id by {
        assert(s.live(id));
    }
}

/// One decision of the run loop keeps the invariant.
pub proof fn lemma_next_wf<T>(s: ExecutorState<T>, event: Event<T>)
    requires
        s.wf(),
        s.next(event) is Some,
    ensures
        s.next(event).unwrap().0.wf(),
{
    let t = s.next(event).unwrap().0;
    match (s.phase, event) {
        (Phase::PollingRoot { drained: false }, Event::RootPolled { ready: false }) => {
            if s.queue.len() > 0 {
                lemma_begin_drive_wf(s, (s.queue.len() - 1) as usize);
            } else {
                lemma_rephase_wf(s, t.phase);
            }
        },
        (Phase::Draining { current, remaining }, Event::Driven { computation, .. }) => {
            let mid = s.end_drive(current, computation, Phase::PollingRoot { drained: true });
            lemma_end_drive_wf(s, computation, Phase::PollingRoot { drained: true });
            if !(remaining == 0 || s.queue.len() == 0) {
                lemma_begin_drive_wf(mid, (remaining - 1) as usize);
            }
        },
        _ => {
            lemma_rephase_wf(s, t.phase);
        },
    }
}

/// Going from one phase to another, neither of which drives a task, changes
/// no share.
pub proof fn lemma_rephase_wf<T>(s: ExecutorState<T>, phase: Phase)
    requires
        s.wf(),
        s.phase !is Draining,
        phase !is Draining,
    ensures
        (ExecutorState { phase, ..s }).wf(),
        forall|id: TaskId| (ExecutorState { phase, ..s }).shares(id) == s.shares(id),
{
    let t = ExecutorState { phase, ..s };
    assert forall|id: TaskId| t.live(id) <==> t.shares(id) > 0 by {
        assert(s.live(id) <==> s.shares(id) > 0);
    }
    assert(forall|id: TaskId| t.live(id) ==> id < t.next_id);
}

} // verus!
