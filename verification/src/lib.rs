//! The scheduling core of a work-stealing task executor.
//!
//! Every operation here is a step on plain, exclusively owned state: it takes
//! the state by `&mut`, changes it, and hands back whatever has to happen
//! outside of it (a task to poll, a waker to invoke). A front-end that shares
//! the state between threads performs those actions after releasing it.
//!
//! The parts, leaves first:
//!
//! - `handle`: the runnables and wakers that the scheduler moves around;
//! - `queue`: the global queue and the bounded local queues, with stealing;
//! - `registry`: the table of the local queues of the workers;
//! - `sleepers`: the table of sleeping tickers;
//! - `active`: the set of active tasks;
//! - `state`: what the workers of one executor share;
//! - `ticker`: the consumers that wait for a runnable;
//! - `tls`: the per-thread handoff slot;
//! - `runner`: the workers and their search for work;
//! - `executor`: spawning, ticking, running and winding up;
//! - `laws`: what holds of all of these together.

pub mod active;
pub mod executor;
pub mod handle;
pub mod laws;
pub mod queue;
pub mod registry;
pub mod runner;
pub mod sleepers;
pub mod state;
pub mod ticker;
pub mod tls;
