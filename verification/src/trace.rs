//! Histories of an executor: what it goes through when operations arrive in
//! any order.

use crate::model::{Action, Event, ExecutorState};
use crate::queue::TaskId;
use vstd::prelude::*;

verus! {

/// One thing that can happen to an executor.
pub enum Input<T> {
    /// The run loop is told of an event and decides its next action.
    Step(Event<T>),
    /// A task is submitted with its computation.
    Spawn(T),
    /// A waker of the task is cloned.
    CloneWaker(TaskId),
    /// The task is woken through a waker that is given up.
    Wake(TaskId),
    /// The task is woken through a waker that is kept.
    WakeByRef(TaskId),
    /// A waker of the task is dropped.
    DropWaker(TaskId),
}

/// The state after `input`. An input that is refused, or that comes while no
/// executor is bound though it needs one, leaves the state as it is.
pub open spec fn apply<T>(s: ExecutorState<T>, input: Input<T>) -> ExecutorState<T> {
    match input {
        Input::Step(event) => match s.next(event) {
            Some((t, _)) => t,
            None => s,
        },
        Input::Spawn(computation) => match s.try_spawn(computation) {
            Ok((t, _)) if s.bound() => t,
            _ => s,
        },
        Input::CloneWaker(id) => match s.try_clone_waker(id) {
            Ok(t) => t,
            _ => s,
        },
        Input::Wake(id) => match s.try_wake(id) {
            Ok(t) if s.bound() => t,
            _ => s,
        },
        Input::WakeByRef(id) => match s.try_wake_by_ref(id) {
            Ok(t) if s.bound() => t,
            _ => s,
        },
        Input::DropWaker(id) => match s.try_drop_waker(id) {
            Ok((t, _)) => t,
            _ => s,
        },
    }
}

/// The action that the run loop answers `input` with, if it is an event that
/// the run loop accepts.
pub open spec fn emitted<T>(s: ExecutorState<T>, input: Input<T>) -> Option<Action<T>> {
    match input {
        Input::Step(event) => match s.next(event) {
            Some((_, action)) => Some(action),
            None => None,
        },
        _ => None,
    }
}

/// The state after all of `inputs`, first to last.
pub open spec fn run<T>(s: ExecutorState<T>, inputs: Seq<Input<T>>) -> ExecutorState<T>
    decreases inputs.len(),
{
    if inputs.len() == 0 {
        s
    } else {
        apply(run(s, inputs.drop_last()), inputs.last())
    }
}

/// The tasks that the run loop hands out to be driven in the course of
/// `inputs`, in that order.
pub open spec fn driven<T>(s: ExecutorState<T>, inputs: Seq<Input<T>>) -> Seq<TaskId>
    decreases inputs.len(),
{
    if inputs.len() == 0 {
        Seq::empty()
    } else {
        let before = driven(s, inputs.drop_last());
        match emitted(run(s, inputs.drop_last()), inputs.last()) {
            Some(Action::Drive { task, .. }) => before.push(task),
            _ => before,
        }
    }
}

/// How many reports of a finished drive step `inputs` holds.
pub open spec fn drive_reports<T>(inputs: Seq<Input<T>>) -> nat
    decreases inputs.len(),
{
    if inputs.len() == 0 {
        0
    } else {
        let before = drive_reports(inputs.drop_last());
        match inputs.last() {
            Input::Step(Event::Driven { .. }) => before + 1,
            _ => before,
        }
    }
}

/// Whether `inputs` opens a drain and stays within it: a poll that finds the
/// root pending, then reports of drive steps, with any submitting, waking,
/// cloning and dropping in between.
pub open spec fn within_one_drain<T>(inputs: Seq<Input<T>>) -> bool {
    &&& inputs.len() > 0
    &&& inputs[0] == Input::<T>::Step(Event::RootPolled { ready: false })
    &&& forall|k: int|
        1 <= k < inputs.len() ==> (#[trigger] inputs[k] matches Input::Step(event)
            ==> event is Driven)
}

/// Whether, in the course of `inputs`, a drive step of task `id` reported the
/// task complete.
pub open spec fn completed<T>(s: ExecutorState<T>, inputs: Seq<Input<T>>, id: TaskId) -> bool {
    exists|k: int|
        0 <= k < inputs.len() && reports_completion(#[trigger] inputs[k]) && run(
            s,
            inputs.subrange(0, k),
        ).held(id) > 0
}

/// Whether `input` reports a drive step that found its task complete.
pub open spec fn reports_completion<T>(input: Input<T>) -> bool {
    input matches Input::Step(Event::Driven { ready: true, .. })
}

} // verus!
