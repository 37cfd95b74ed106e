//! A fixed-size worker pool for a small multi-threaded server, modelled as
//! verified state machines.
//!
//! The crate is layered. [`queue`] is the leaf: a first-in, first-out
//! transport of jobs that can be closed. [`worker`] is the loop of a single
//! worker, which takes jobs from a queue and reports when it has run them.
//! [`pool`] owns a fixed set of workers and the queue they share, and proves
//! what holds of them together. [`http`] picks the response to a request
//! line.
//!
//! Nothing here blocks or spawns a thread: every operation is one atomic step
//! of the pool, and a caller that runs real threads takes one step at a time
//! under its own lock.
pub mod http;
pub mod pool;
pub mod queue;
pub mod worker;
