//! What the server asks of a pool of worker threads.

use crate::error::KvsError;
use vstd::prelude::*;

verus! {

/// A pool of threads that run jobs.
///
/// A job that panics must not take its worker with it: the pool goes on
/// running the jobs that follow. Dropping the pool waits for its workers.
pub trait ThreadPool {
    /// Creates a pool of `threads` workers.
    fn new(threads: u32) -> Result<Self, KvsError> where Self: Sized;

    /// Hands a job to the pool.
    fn spawn<F>(&self, job: F) where F: FnOnce() + Send + 'static;
}

} // verus!
