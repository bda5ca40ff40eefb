//! What holds of every executor, whatever happens to it and in whatever order.

use crate::model::{Action, Event, ExecutorError, ExecutorState, Phase};
use crate::queue::TaskId;
use crate::shares::{
    lemma_clone_waker_wf, lemma_drop_waker_wf, lemma_next_wf, lemma_spawn_wf,
    lemma_wake_by_ref_wf, lemma_wake_wf,
};
use crate::trace::{
    apply, completed, drive_reports, driven, emitted, reports_completion, run, within_one_drain,
    Input,
};
use vstd::prelude::*;

verus! {

/// The smaller of two numbers.
pub open spec fn least(a: nat, b: nat) -> nat {
    if a <= b {
        a
    } else {
        b
    }
}

/// Whatever happens to a well-formed executor leaves it well formed.
pub proof fn lemma_apply_wf<T>(s: ExecutorState<T>, input: Input<T>)
    requires
        s.wf(),
    ensures
        apply(s, input).wf(),
{
    match input {
        Input::Step(event) => {
            if s.next(event) is Some {
                lemma_next_wf(s, event);
            }
        },
        Input::Spawn(computation) => {
            if s.try_spawn(computation) is Ok {
                lemma_spawn_wf(s, computation);
            }
        },
        Input::CloneWaker(id) => {
            if s.try_clone_waker(id) is Ok {
                lemma_clone_waker_wf(s, id);
            }
        },
        Input::Wake(id) => {
            if s.try_wake(id) is Ok {
                lemma_wake_wf(s, id);
            }
        },
        Input::WakeByRef(id) => {
            if s.try_wake_by_ref(id) is Ok {
                lemma_wake_by_ref_wf(s, id);
            }
        },
        Input::DropWaker(id) => {
            if s.try_drop_waker(id) is Ok {
                lemma_drop_waker_wf(s, id);
            }
        },
    }
}

/// A history that starts well formed ends well formed.
pub proof fn lemma_run_wf<T>(s: ExecutorState<T>, inputs: Seq<Input<T>>)
    requires
        s.wf(),
    ensures
        run(s, inputs).wf(),
    decreases inputs.len(),
{
    if inputs.len() > 0 {
        lemma_run_wf(s, inputs.drop_last());
        lemma_apply_wf(run(s, inputs.drop_last()), inputs.last());
    }
}

/// Share counting is exact through every history: after any sequence of
/// submitting, cloning, waking, dropping and run-loop steps, in any order, a
/// task's storage exists exactly while the task has a share, and it holds the
/// task's computation exactly while the task is not out for a drive step.
/// Shares are counted in natural numbers: none is ever given up twice.
pub proof fn lemma_storage_tracks_shares<T>(inputs: Seq<Input<T>>)
    ensures
        run(ExecutorState::<T>::initial(), inputs).wf(),
        forall|id: TaskId|
            run(ExecutorState::<T>::initial(), inputs).live(id) <==> #[trigger] run(
                ExecutorState::<T>::initial(),
                inputs,
            ).shares(id) > 0,
        forall|id: TaskId| #[trigger]
            run(ExecutorState::<T>::initial(), inputs).store.contains_key(id) <==> run(
                ExecutorState::<T>::initial(),
                inputs,
            ).shares(id) > 0 && run(ExecutorState::<T>::initial(), inputs).held(id) == 0,
{
    lemma_run_wf(ExecutorState::<T>::initial(), inputs);
}

/// Identifiers are handed out once: nothing that happens lowers the next
/// identifier, and storage that is gone does not come back.
pub proof fn lemma_apply_keeps_released<T>(s: ExecutorState<T>, input: Input<T>, id: TaskId)
    requires
        s.wf(),
        id < s.next_id,
        !s.live(id),
    ensures
        s.next_id <= apply(s, input).next_id,
        !apply(s, input).live(id),
        !apply(s, input).store.contains_key(id),
{
    // A task without storage has no share: it is neither queued nor driven,
    // and no waker of it is at hand. So no operation is accepted for it, and
    // a submitted task gets an identifier that was never handed out.
}

/// Storage is released exactly once: a task whose storage was released, and
/// its computation with it, has none again, whatever happens afterwards.
pub proof fn lemma_released_exactly_once<T>(s: ExecutorState<T>, inputs: Seq<Input<T>>, id: TaskId)
    requires
        s.wf(),
        id < s.next_id,
        !s.live(id),
    ensures
        s.next_id <= run(s, inputs).next_id,
        !run(s, inputs).live(id),
        !run(s, inputs).store.contains_key(id),
        run(s, inputs).shares(id) == 0,
    decreases inputs.len(),
{
    if inputs.len() > 0 {
        lemma_released_exactly_once(s, inputs.drop_last(), id);
        lemma_run_wf(s, inputs.drop_last());
        lemma_apply_keeps_released(run(s, inputs.drop_last()), inputs.last(), id);
    }
    lemma_run_wf(s, inputs);
}

/// The run loop leaves only through a poll that finds the root ready, and it
/// blocks only on an empty queue.
pub proof fn lemma_sole_exit<T>(s: ExecutorState<T>, event: Event<T>)
    requires
        s.wf(),
        s.next(event) is Some,
    ensures
        s.next(event).unwrap().1 is Return <==> s.phase is PollingRoot && event == (
            Event::<T>::RootPolled { ready: true }),
        s.next(event).unwrap().0.phase is Done <==> s.next(event).unwrap().1 is Return,
        s.next(event).unwrap().1 is Wait ==> s.queue.len() == 0 && s.next(
            event,
        ).unwrap().0.queue.len() == 0,
{
}

/// Only a poll that finds the root ready ends the run loop: no other input
/// takes a loop that has not ended to its end.
pub proof fn lemma_apply_done<T>(s: ExecutorState<T>, input: Input<T>)
    requires
        s.phase !is Done,
        apply(s, input).phase is Done,
    ensures
        input == (Input::<T>::Step(Event::RootPolled { ready: true })),
        s.phase is PollingRoot,
{
}

/// A report of completion, once in a history, stays in every longer one.
pub proof fn lemma_completed_extends<T>(
    s: ExecutorState<T>,
    inputs: Seq<Input<T>>,
    len: int,
    id: TaskId,
)
    requires
        0 <= len <= inputs.len(),
        completed(s, inputs.subrange(0, len), id),
    ensures
        completed(s, inputs, id),
{
    let head = inputs.subrange(0, len);
    let k = choose|k: int|
        0 <= k < head.len() && reports_completion(#[trigger] head[k]) && run(
            s,
            head.subrange(0, k),
        ).held(id) > 0;
    assert(head.subrange(0, k) =~= inputs.subrange(0, k));
}

/// A task on which the root depends is driven to completion before the run
/// loop returns.
///
/// That the root depends on task `id` means: whenever a poll finds the root
/// ready, a drive step of the task has reported it complete before. Then, in
/// every history that ends with the run loop returned, the task was driven to
/// completion.
pub proof fn lemma_completed_before_return<T>(
    s: ExecutorState<T>,
    inputs: Seq<Input<T>>,
    id: TaskId,
)
    requires
        s.phase !is Done,
        run(s, inputs).phase is Done,
        forall|k: int|
            0 <= k < inputs.len() && #[trigger] inputs[k] == Input::<T>::Step(
                Event::RootPolled { ready: true },
            ) ==> completed(s, inputs.subrange(0, k), id),
    ensures
        completed(s, inputs, id),
    decreases inputs.len(),
{
    let before = inputs.drop_last();
    if run(s, before).phase is Done {
        // The loop had returned before the last input.
        assert forall|k: int|
            0 <= k < before.len() && #[trigger] before[k] == Input::<T>::Step(
                Event::RootPolled { ready: true },
            ) implies completed(s, before.subrange(0, k), id) by {
            assert(before.subrange(0, k) =~= inputs.subrange(0, k));
        }
        lemma_completed_before_return(s, before, id);
    }
    // Otherwise the last input is the poll that found the root ready.
    lemma_completed_extends(s, inputs, inputs.len() - 1, id);
}

/// A drain drives, in queue order, the entries that were queued when it
/// began, and no others: after a poll that found the root pending and any
/// number of reports of drive steps, the tasks handed out are the head of the
/// queue as it stood at that poll, one for the poll and one for each report,
/// until those entries are used up; then the root is polled again. What is
/// submitted or woken in between waits for the next drain.
pub proof fn lemma_drain_is_fifo<T>(s: ExecutorState<T>, inputs: Seq<Input<T>>)
    requires
        s.wf(),
        s.phase == (Phase::PollingRoot { drained: false }),
        within_one_drain(inputs),
    ensures
        driven(s, inputs) == s.queue.subrange(
            0,
            least(drive_reports(inputs) + 1, s.queue.len()) as int,
        ),
        drive_reports(inputs) >= s.queue.len() ==> run(s, inputs).phase == (Phase::PollingRoot {
            drained: true,
        }),
{
    lemma_drain_progress(s, inputs);
}

/// Where a drain of `snapshot` stands after `reports` drive steps were
/// reported: the next entry is being driven and the rest of the snapshot
/// heads the queue; or, with the snapshot used up, the root is polled again.
pub open spec fn in_drain<T>(t: ExecutorState<T>, snapshot: Seq<TaskId>, reports: nat) -> bool {
    if reports < snapshot.len() {
        &&& t.phase == (Phase::Draining {
            current: snapshot[reports as int],
            remaining: (snapshot.len() - reports - 1) as usize,
        })
        &&& t.queue.len() >= snapshot.len() - reports - 1
        &&& t.queue.subrange(0, snapshot.len() - reports - 1) == snapshot.subrange(
            reports as int + 1,
            snapshot.len() as int,
        )
    } else {
        t.phase == (Phase::PollingRoot { drained: true })
    }
}

/// Pushing at the tail leaves the head of the queue as it was.
proof fn lemma_push_keeps_head<T>(
    t: ExecutorState<T>,
    u: ExecutorState<T>,
    pushed: TaskId,
    snapshot: Seq<TaskId>,
    reports: nat,
)
    requires
        in_drain(t, snapshot, reports),
        u.phase == t.phase,
        u.queue == t.queue.push(pushed),
    ensures
        in_drain(u, snapshot, reports),
{
    if reports < snapshot.len() {
        assert(u.queue.subrange(0, snapshot.len() - reports - 1) =~= t.queue.subrange(
            0,
            snapshot.len() - reports - 1,
        ));
    }
}

/// The state of a drain after each input of it.
proof fn lemma_drain_progress<T>(s: ExecutorState<T>, inputs: Seq<Input<T>>)
    requires
        s.wf(),
        s.phase == (Phase::PollingRoot { drained: false }),
        within_one_drain(inputs),
    ensures
        run(s, inputs).wf(),
        in_drain(run(s, inputs), s.queue, drive_reports(inputs)),
        driven(s, inputs) == s.queue.subrange(
            0,
            least(drive_reports(inputs) + 1, s.queue.len()) as int,
        ),
        drive_reports(inputs) >= s.queue.len() ==> run(s, inputs).phase == (Phase::PollingRoot {
            drained: true,
        }),
    decreases inputs.len(),
{
    let q = s.queue;
    let before = inputs.drop_last();
    let last = inputs.last();
    lemma_run_wf(s, inputs);
    if inputs.len() == 1 {
        // The poll that opens the drain hands out the head of the queue.
        assert(driven(s, before) =~= Seq::<TaskId>::empty());
        if q.len() > 0 {
            assert(run(s, inputs).queue.subrange(0, q.len() - 1) =~= q.subrange(
                1,
                q.len() as int,
            ));
        }
    } else {
        lemma_drain_progress(s, before);
        let t = run(s, before);
        let u = run(s, inputs);
        let reports = drive_reports(before);
        match last {
            Input::Step(event) => {
                // A report ends one drive step; the next entry of the snapshot
                // heads the queue and is handed out.
                if reports + 1 < q.len() {
                    assert(t.queue[0] == t.queue.subrange(0, q.len() - reports - 1)[0]);
                    assert(u.queue.subrange(0, q.len() - reports - 2) =~= q.subrange(
                        reports as int + 2,
                        q.len() as int,
                    )) by {
                        assert forall|i: int| 0 <= i < q.len() - reports - 2 implies u.queue[i]
                            == q[reports + 2 + i] by {
                            assert(t.queue.subrange(0, q.len() - reports - 1)[i + 1] == q[reports
                                + 2 + i]);
                        }
                    }
                }
            },
            Input::Spawn(computation) => {
                if t.bound() && t.try_spawn(computation) is Ok {
                    lemma_push_keeps_head(t, u, t.next_id, q, reports);
                }
            },
            Input::Wake(id) => {
                if t.bound() && t.try_wake(id) is Ok {
                    lemma_push_keeps_head(t, u, id, q, reports);
                }
            },
            Input::WakeByRef(id) => {
                if t.bound() && t.try_wake_by_ref(id) is Ok {
                    lemma_push_keeps_head(t, u, id, q, reports);
                }
            },
            Input::CloneWaker(id) => {},
            Input::DropWaker(id) => {},
        }
    }
}

/// An entry leaves the queue only by being handed out: through every history,
/// a task that was queued at the start is still queued or has been handed
/// out to be driven.
pub proof fn lemma_queued_or_driven<T>(s: ExecutorState<T>, inputs: Seq<Input<T>>, id: TaskId)
    requires
        s.wf(),
        s.queue.contains(id),
    ensures
        run(s, inputs).queue.contains(id) || driven(s, inputs).contains(id),
    decreases inputs.len(),
{
    if inputs.len() > 0 {
        let before = inputs.drop_last();
        let t = run(s, before);
        let u = run(s, inputs);
        lemma_queued_or_driven(s, before, id);
        if driven(s, before).contains(id) {
            let i = choose|i: int| 0 <= i < driven(s, before).len() && driven(s, before)[i] == id;
            assert(driven(s, inputs)[i] == id);
        } else {
            let i = choose|i: int| 0 <= i < t.queue.len() && t.queue[i] == id;
            if u.queue.len() >= t.queue.len() {
                // Nothing was handed out: entries were at most added at the tail.
                assert(u.queue[i] == id);
            } else if i == 0 {
                assert(driven(s, inputs).last() == id);
            } else {
                assert(u.queue[i - 1] == id);
            }
        }
    }
}

/// No task is left waiting when the run loop blocks: if a task is queued and
/// the run loop, at any later point, decides to wait on the reactor, then
/// the task was handed out to be driven in between.
pub proof fn lemma_driven_before_blocking<T>(
    s: ExecutorState<T>,
    inputs: Seq<Input<T>>,
    id: TaskId,
)
    requires
        s.wf(),
        s.queue.contains(id),
        inputs.len() > 0,
        emitted(run(s, inputs.drop_last()), inputs.last()) matches Some(action) && action is Wait,
    ensures
        driven(s, inputs).contains(id),
{
    // The loop waits only on an empty queue, so the task has left the queue.
    lemma_queued_or_driven(s, inputs.drop_last(), id);
}

/// A wake is never lost: when a task is woken while its own drive step is
/// under way, the wake is accepted, and once the step is reported the entry
/// made for the task is still queued and the task keeps its storage and its
/// computation, so that a later drive step finds it.
pub proof fn lemma_wake_during_drive_is_kept<T>(
    s: ExecutorState<T>,
    id: TaskId,
    ready: bool,
    computation: T,
)
    requires
        s.wf(),
        s.has_room(),
        s.phase is Draining,
        s.phase->current == id,
    ensures
        s.try_wake_by_ref(id) == Ok::<ExecutorState<T>, ExecutorError>(s.wake_by_ref(id)),
        s.wake_by_ref(id).next(Event::Driven { ready, computation }) is Some,
        s.wake_by_ref(id).next(Event::Driven { ready, computation }).unwrap().0.queue.contains(id),
        s.wake_by_ref(id).next(Event::Driven { ready, computation }).unwrap().0.live(id),
        s.wake_by_ref(id).next(Event::Driven { ready, computation }).unwrap().1 is Drive || s.wake_by_ref(
            id,
        ).next(Event::Driven { ready, computation }).unwrap().0.store[id] == computation,
{
    // The drain counted on entries that were queued before the wake, so the
    // entry of the wake, at the tail, outlasts the step.
    lemma_wake_by_ref_wf(s, id);
    let after = s.wake_by_ref(id).next(Event::Driven { ready, computation }).unwrap().0;
    assert(after.shares(id) > 0);
}

/// The same holds of a wake that gives its waker up: a clone of the waker
/// lent to the drive step, used by value while the step is under way, leaves
/// an entry that is still queued once the step is reported, and the task
/// keeps its storage.
pub proof fn lemma_wake_by_value_during_drive_is_kept<T>(
    s: ExecutorState<T>,
    id: TaskId,
    ready: bool,
    computation: T,
)
    requires
        s.wf(),
        s.has_room(),
        s.phase is Draining,
        s.phase->current == id,
        s.owns_waker(id),
    ensures
        s.try_wake(id) == Ok::<ExecutorState<T>, ExecutorError>(s.wake(id)),
        s.wake(id).next(Event::Driven { ready, computation }) is Some,
        s.wake(id).next(Event::Driven { ready, computation }).unwrap().0.queue.contains(id),
        s.wake(id).next(Event::Driven { ready, computation }).unwrap().0.live(id),
{
    lemma_wake_wf(s, id);
    let after = s.wake(id).next(Event::Driven { ready, computation }).unwrap().0;
    assert(after.shares(id) > 0);
}

/// The root has priority: when the last task of a drain has been driven, the
/// root is polled next, whatever was queued meanwhile; and a poll that finds
/// the root ready ends the run loop at once, with those entries left in the
/// queue.
pub proof fn lemma_root_priority<T>(s: ExecutorState<T>, ready: bool, computation: T)
    requires
        s.wf(),
        s.phase is Draining,
        s.phase->remaining == 0,
    ensures
        s.next(Event::Driven { ready, computation }) is Some,
        s.next(Event::Driven { ready, computation }).unwrap().1 is PollRoot,
        s.next(Event::Driven { ready, computation }).unwrap().0.next(
            Event::RootPolled { ready: true },
        ) is Some,
        s.next(Event::Driven { ready, computation }).unwrap().0.next(
            Event::RootPolled { ready: true },
        ).unwrap().1 is Return,
        s.next(Event::Driven { ready, computation }).unwrap().0.next(
            Event::RootPolled { ready: true },
        ).unwrap().0.phase == Phase::Done,
        s.next(Event::Driven { ready, computation }).unwrap().0.next(
            Event::RootPolled { ready: true },
        ).unwrap().0.queue == s.queue,
{
}

/// A poll that finds the root ready ends the run loop from either poll of an
/// iteration, and touches neither the queue nor any task.
pub proof fn lemma_root_ready_returns<T>(s: ExecutorState<T>)
    requires
        s.phase is PollingRoot,
    ensures
        s.next(Event::RootPolled { ready: true }) == Some(
            (ExecutorState { phase: Phase::Done, ..s }, Action::<T>::Return),
        ),
{
}

} // verus!
