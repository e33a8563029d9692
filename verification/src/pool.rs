//! The bounded worker pool that executes offloaded blocking work.
//!
//! The pool itself is rayon's: it is opaque here, and only two things are
//! relied on — building a pool with a fixed worker count, and running one
//! unit of work on it to completion.

use vstd::prelude::*;

verus! {

use crate::errors::ChannelError;
use crate::errors::DbError;

/// rayon's fixed-size worker pool, the execution facility behind every
/// blocking-driver adapter.  Its inside is opaque to the library.
#[verifier::external_type_specification]
#[verifier::external_body]
pub struct ExThreadPool(rayon::ThreadPool);

/// Relies on rayon's `ThreadPoolBuilder::new().num_threads(workers).build()`:
/// it returns a pool of exactly `workers` worker threads, or an error if the
/// operating system could not supply them.  A build failure is mapped to a
/// channel-level error: the execution facility itself was unavailable.
#[verifier::external_body]
pub fn new_worker_pool(workers: usize) -> (r: Result<rayon::ThreadPool, DbError>)
    requires
        1 <= workers,
    ensures
        r is Err ==> r->Err_0 == DbError::Channel(ChannelError::WorkerFailed),
{
    rayon::ThreadPoolBuilder::new()
        .num_threads(workers)
        .build()
        .map_err(|_| DbError::Channel(ChannelError::WorkerFailed))
}

/// Relies on rayon's `ThreadPool::install`: the pool runs `f` exactly once on
/// one of its worker threads, the invoking task waits for it without occupying
/// the other workers, and the value `f` returned is handed back unchanged.
/// Whatever `install` returns is therefore an outcome `f` itself can produce.
#[verifier::external_body]
pub fn run_on_blocking_threadpool<F, T>(pool: &rayon::ThreadPool, f: F) -> (r: Result<T, DbError>)
    where
        F: FnOnce() -> Result<T, DbError> + Send,
        T: Send,
    requires
        call_requires(f, ()),
    ensures
        call_ensures(f, (), r),
{
    pool.install(f)
}

} // verus!
