//! The errors of the pool.

use vstd::prelude::*;

verus! {

/// Why the pool refused a request.
#[derive(Debug, PartialEq, Eq, Structural)]
pub enum PoolError {
    /// Returned by [`ThreadPool::build`](crate::ThreadPool::build) for a size of `0`.
    /// A pool with no workers can never make progress.
    ZeroWorkers,
    /// Returned by [`ThreadPool::execute`](crate::ThreadPool::execute) once the pool is shutting
    /// down and can no longer accept new jobs.
    SendError,
}

} // verus!
