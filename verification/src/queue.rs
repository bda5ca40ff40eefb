//! The ready queue: task identifiers in first-in, first-out order.

use std::collections::VecDeque;
use vstd::prelude::*;

verus! {

/// Identifies one task for as long as the executor that spawned it exists.
pub type TaskId = u64;

/// Number of slots a queue made by [`TaskQueue::new`] starts out with.
pub const DEFAULT_TASK_QUEUE_SIZE: usize = 4096;

/// Largest capacity a queue may be pre-sized for.
pub const MAX_TASK_QUEUE_SIZE: usize = 0x0fff_ffff;

/// How often `id` occurs in `entries`.
pub open spec fn occurrences(entries: Seq<TaskId>, id: TaskId) -> nat
    decreases entries.len(),
{
    if entries.len() == 0 {
        0
    } else {
        let rest = occurrences(entries.drop_last(), id);
        if entries.last() == id {
            rest + 1
        } else {
            rest
        }
    }
}

/// Appending an entry adds one occurrence of it and of nothing else.
pub proof fn lemma_occurrences_push(entries: Seq<TaskId>, pushed: TaskId, id: TaskId)
    ensures
        occurrences(entries.push(pushed), id) == occurrences(entries, id) + if pushed == id {
            1nat
        } else {
            0nat
        },
{
    assert(entries.push(pushed).drop_last() =~= entries);
}

/// Removing the head takes away one occurrence of it and of nothing else.
pub proof fn lemma_occurrences_drop_first(entries: Seq<TaskId>, id: TaskId)
    requires
        entries.len() > 0,
    ensures
        occurrences(entries, id) == occurrences(entries.drop_first(), id) + if entries[0] == id {
            1nat
        } else {
            0nat
        },
    decreases entries.len(),
{
    if entries.len() == 1 {
        assert(entries.drop_last() =~= Seq::<TaskId>::empty());
        assert(entries.drop_first() =~= Seq::<TaskId>::empty());
    } else {
        lemma_occurrences_drop_first(entries.drop_last(), id);
        assert(entries.drop_last().drop_first() =~= entries.drop_first().drop_last());
    }
}

/// An identifier occurs at most as often as there are entries, and at least
/// once exactly when it is among them.
pub proof fn lemma_occurrences_bounds(entries: Seq<TaskId>, id: TaskId)
    ensures
        occurrences(entries, id) <= entries.len(),
        occurrences(entries, id) > 0 <==> entries.contains(id),
    decreases entries.len(),
{
    if entries.len() > 0 {
        lemma_occurrences_bounds(entries.drop_last(), id);
        if entries.last() == id {
        } else if entries.contains(id) {
            let i = choose|i: int| 0 <= i < entries.len() && entries[i] == id;
            assert(entries.drop_last()[i] == id);
        } else if entries.drop_last().contains(id) {
            let i = choose|i: int| 0 <= i < entries.drop_last().len() && entries.drop_last()[i] == id;
        }
    }
}

/// An ordered collection of the tasks that await their next drive step.
///
/// Entries leave in the order in which they came. A task may be queued more
/// than once: nothing is deduplicated.
pub struct TaskQueue {
    queue: VecDeque<TaskId>,
}

impl View for TaskQueue {
    type V = Seq<TaskId>;

    closed spec fn view(&self) -> Seq<TaskId> {
        self.queue@
    }
}

impl Default for TaskQueue {
    /// An empty queue of the default size.
    fn default() -> (q: Self)
        ensures
            q@ == Seq::<TaskId>::empty(),
    {
        Self::new()
    }
}

impl TaskQueue {
    /// An empty queue of the default size.
    pub fn new() -> (q: Self)
        ensures
            q@ == Seq::<TaskId>::empty(),
    {
        Self::new_with_capacity(DEFAULT_TASK_QUEUE_SIZE)
    }

    /// An empty queue with room for `capacity` entries before it has to grow.
    pub fn new_with_capacity(capacity: usize) -> (q: Self)
        requires
            capacity <= MAX_TASK_QUEUE_SIZE,
        ensures
            q@ == Seq::<TaskId>::empty(),
    {
        TaskQueue { queue: VecDeque::with_capacity(capacity) }
    }

    /// Appends `id` at the tail.
    pub fn push(&mut self, id: TaskId)
        ensures
            final(self)@ == old(self)@.push(id),
    {
        self.queue.push_back(id);
    }

    /// Removes the head and returns it; `None` when the queue is empty.
    pub fn pop(&mut self) -> (head: Option<TaskId>)
        ensures
            old(self)@.len() == 0 ==> head.is_none() && final(self)@ == old(self)@,
            old(self)@.len() > 0 ==> head == Some(old(self)@[0]) && final(self)@ == old(
                self,
            )@.drop_first(),
    {
        self.queue.pop_front()
    }

    /// Number of queued entries.
    pub fn len(&self) -> (n: usize)
        ensures
            n == self@.len(),
    {
        self.queue.len()
    }

    /// Whether nothing is queued.
    pub fn is_empty(&self) -> (b: bool)
        ensures
            b == (self@.len() == 0),
    {
        self.queue.len() == 0
    }
}

} // verus!
