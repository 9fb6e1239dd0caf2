//! A task-execution engine: a first-in-first-out queue of pending tasks, a
//! fixed set of worker slots that take tasks from it, and the pool that
//! coordinates them, for workers that run side by side and for a single
//! scheduler that hands each task out as a job of its own.
//!
//! The crate holds every decision of the engine as sequential code with a
//! contract: what the queue holds after each operation, which worker must be
//! given an execution context, which task a worker performs next. Giving a
//! worker a thread, or a task a scheduled job, is left to the embedding
//! program, which performs what the pool decides under one lock and reports
//! back. What holds of a pool whatever happens to it, in whatever order, is
//! proved in `laws` and `coop`.
//!
//! Beside the engine stand two small collaborators: a store of settings with
//! rules for their values (`manager`, `params`, `lines`, `table`), and the
//! reading of a map code out of a page (`mapcode`). `text` holds what they
//! share.
pub mod async_pool;
pub mod coop;
pub mod executor;
pub mod laws;
pub mod ledger;
pub mod lines;
pub mod manager;
pub mod mapcode;
pub mod model;
pub mod params;
pub mod pool;
pub mod queue;
pub mod sample;
pub mod table;
pub mod task;
pub mod text;
