//! A work-stealing thread pool.
//!
//! [`ThreadPool`] takes jobs and names the workers to wake; each [`Worker`] takes turns, in which
//! it searches the queues for a job and says what its thread has to do. What they do to the things
//! that threads share is put on record in a [`journal`](entry::journal), so that their contracts
//! name every call. [`lifecycle`] puts all threads of a pool together and shows what holds
//! whatever the order of their steps; [`progress`] and [`eventually`] show what becomes of the
//! jobs.
//!
//! What the operations are for is stated apart from how they are done: [`effects`] says what the
//! pool's calls leave behind in queues, flags and counters, [`conduct`] how a worker searches,
//! spins, sleeps and leaves, and [`founding`] what a pool is like when it has just been built.
pub mod affinity;
pub mod backoff;
pub mod conduct;
pub mod dispatch;
pub mod effects;
pub mod entry;
pub mod error;
pub mod eventually;
pub mod founding;
pub mod lifecycle;
pub mod outside;
pub mod patrol;
pub mod pool;
pub mod progress;
pub mod report;
pub mod search;
pub mod station;
pub mod trace;
pub mod worker;

pub use error::PoolError;
pub use entry::ThreadPool;
pub use worker::Worker;
