//! Async executors.
//!
//! An [`Executor`] holds the scheduled tasks and decides which one is run next and which sleeping
//! worker is woken. Workers are tickers, which serve the global queue, and runners, which keep a
//! shard of that queue and steal from each other.
//!
//! The operations take the executor by exclusive reference and leave two things to the caller, who
//! does them after each call: running a task that was handed out, and waking a waker that was handed
//! out. What is woken may schedule tasks itself, so an operation stops where it hands out a waker: a
//! runner goes on with [`Executor::bump`], and one that goes away with [`Executor::leave`]. An
//! executor that is shared between threads stands behind a lock.

pub mod executor;
pub mod laws;
pub mod queue;
mod random;
pub mod runner;
pub mod scheduled;
pub mod sleepers;
pub mod state;
pub mod task;
pub mod ticker;
mod waker;

pub use crate::executor::{Batch, Executor, Found, Job, Leaving, LocalExecutor, RunStep};
pub use crate::runner::Runner;
pub use crate::task::Task;
pub use crate::ticker::Ticker;
