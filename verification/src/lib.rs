//! A single-threaded cooperative task executor, reduced to its scheduling core.
//!
//! The crate decides *what happens next* in a run loop that interleaves a root
//! computation with spawned tasks: which task is driven, when the root is
//! polled, when the thread may block, and when a task's storage is released.
//! It keeps the tasks' computations but never runs them: the caller performs
//! each [`model::Action`] and reports back with an [`model::Event`].
//!
//! - [`queue`]: the ready queue.
//! - [`task`]: one task as it is stored.
//! - [`model`]: the executor as a state machine.
//! - [`executor`]: the executor itself.
//! - [`shares`]: what each operation does to the invariant and to the shares.
//! - [`trace`]: histories of an executor.
//! - [`laws`]: what holds of every history.

pub mod executor;
pub mod laws;
pub mod model;
pub mod queue;
pub mod shares;
pub mod task;
pub mod trace;
