//! The `Db` capability and the two backend adapters.
//!
//! `Db` is the single three-operation surface the rest of a system depends
//! on.  A blocking-driver backend is adapted by routing each operation's
//! synchronous body through the worker pool; a natively asynchronous backend
//! is adapted directly.  Both return exactly the outcome the backend's own
//! logic produces, so the two offload strategies are indistinguishable to the
//! caller except for timing.

use vstd::prelude::*;

verus! {

use std::sync::Arc;
use crate::errors::DbError;
use crate::pool::run_on_blocking_threadpool;

/// Backend metadata, opaque to the dispatch machinery and carried through it.
#[derive(Clone, Copy, Debug, PartialEq, Eq, Structural)]
pub struct Info;

/// The payload of a write operation, opaque to the dispatch machinery.
#[derive(Clone, Copy, Debug, PartialEq, Eq, Structural)]
pub struct Params;

/// What a write operation hands back, opaque to the dispatch machinery.
#[derive(Clone, Copy, Debug, PartialEq, Eq, Structural)]
pub struct PostResult;

/// The polymorphic capability every backend adapter implements.  `begin` and
/// `post` are the suspension points; each returns exactly the outcome the
/// backend's own logic produces for the call, however the adapter routes it.
/// `info` is synchronous and side-effect-free.
pub trait Db: Sized {
    /// The outcome the backend's begin-transaction logic produces for `opt`.
    spec fn begin_outcome(self, opt: bool) -> Result<(), DbError>;

    /// The outcome the backend's write logic produces for `params`.
    spec fn post_outcome(self, params: Params) -> Result<PostResult, DbError>;

    /// The metadata the backend reports.
    spec fn info_data(self) -> Info;

    /// Begin a transaction, optimistically if `opt`.  Suspends the calling
    /// task while the backend works; never blocks the other callers.
    fn begin(&mut self, opt: bool) -> (r: Result<(), DbError>)
        ensures
            r == old(self).begin_outcome(opt),
    ;

    /// Post a write.  Suspends the calling task while the backend works;
    /// never blocks the other callers.
    fn post(&mut self, params: Params) -> (r: Result<PostResult, DbError>)
        ensures
            r == old(self).post_outcome(params),
    ;

    /// Report backend metadata, without suspending and without side effect.
    fn info(&mut self) -> (r: Info)
        ensures
            r == old(self).info_data(),
            *final(self) == *old(self),
    ;
}

/// A handle to a backend whose native driver is blocking: every `begin` and
/// `post` routes its synchronous body through the worker pool.  The handle is
/// cheaply duplicable, so each unit of work captures an owned copy rather
/// than a reference into the caller's context.
#[derive(Clone)]
pub struct MysqlDb {
    pool: Arc<rayon::ThreadPool>,
}

impl MysqlDb {
    /// A handle over the process-wide worker pool the caller constructed at
    /// startup.
    pub fn new(pool: Arc<rayon::ThreadPool>) -> MysqlDb {
        MysqlDb { pool }
    }

    /// The backend's synchronous begin-transaction logic, executed on a
    /// worker when reached through the capability.
    pub fn begin_sync(&mut self, _opt: bool) -> (r: Result<(), DbError>)
        ensures
            r == Ok::<(), DbError>(()),
    {
        Ok(())
    }

    /// The backend's synchronous write logic, executed on a worker when
    /// reached through the capability.
    pub fn post_sync(&mut self, _params: Params) -> (r: Result<PostResult, DbError>)
        ensures
            r == Ok::<PostResult, DbError>(PostResult),
    {
        Ok(PostResult)
    }
}

impl Db for MysqlDb {
    open spec fn begin_outcome(self, opt: bool) -> Result<(), DbError> {
        Ok(())
    }

    open spec fn post_outcome(self, params: Params) -> Result<PostResult, DbError> {
        Ok(PostResult)
    }

    open spec fn info_data(self) -> Info {
        Info
    }

    fn begin(&mut self, opt: bool) -> Result<(), DbError> {
        let h = self.clone();
        let work = (move || -> (res: Result<(), DbError>)
            ensures
                res == Ok::<(), DbError>(()),
            {
                let mut owned = h;
                owned.begin_sync(opt)
            });
        run_on_blocking_threadpool(&*self.pool, work)
    }

    fn post(&mut self, params: Params) -> Result<PostResult, DbError> {
        let h = self.clone();
        let work = (move || -> (res: Result<PostResult, DbError>)
            ensures
                res == Ok::<PostResult, DbError>(PostResult),
            {
                let mut owned = h;
                owned.post_sync(params)
            });
        run_on_blocking_threadpool(&*self.pool, work)
    }

    fn info(&mut self) -> Info {
        Info
    }
}

/// A handle to a backend whose native driver is already asynchronous: `begin`
/// and `post` await the backend's own logic directly, with no offload and no
/// worker pool involvement.
#[derive(Clone)]
pub struct SpannerDb;

impl SpannerDb {
    /// The backend's own suspension-capable begin-transaction logic.
    pub fn begin_async(&mut self, _opt: bool) -> (r: Result<(), DbError>)
        ensures
            r == Ok::<(), DbError>(()),
    {
        Ok(())
    }

    /// The backend's own suspension-capable write logic.
    pub fn post_async(&mut self, _params: Params) -> (r: Result<PostResult, DbError>)
        ensures
            r == Ok::<PostResult, DbError>(PostResult),
    {
        Ok(PostResult)
    }
}

impl Db for SpannerDb {
    open spec fn begin_outcome(self, opt: bool) -> Result<(), DbError> {
        Ok(())
    }

    open spec fn post_outcome(self, params: Params) -> Result<PostResult, DbError> {
        Ok(PostResult)
    }

    open spec fn info_data(self) -> Info {
        Info
    }

    fn begin(&mut self, opt: bool) -> Result<(), DbError> {
        self.begin_async(opt)
    }

    fn post(&mut self, params: Params) -> Result<PostResult, DbError> {
        self.post_async(params)
    }

    fn info(&mut self) -> Info {
        Info
    }
}

/// Adapter equivalence: two handles whose backend logic produces the same
/// outcome for a call are indistinguishable to the caller — `begin` and
/// `post` hand back exactly that common outcome, whether the handle offloads
/// to the worker pool or awaits its backend directly.  In particular, for
/// backend logic that always succeeds, both routes yield `Ok` with the same
/// payload.
pub proof fn lemma_adapter_equivalence<A: Db, B: Db>(
    a: A,
    b: B,
    opt: bool,
    params: Params,
    ra: Result<(), DbError>,
    rb: Result<(), DbError>,
    pa: Result<PostResult, DbError>,
    pb: Result<PostResult, DbError>,
)
    requires
        a.begin_outcome(opt) == b.begin_outcome(opt),
        a.post_outcome(params) == b.post_outcome(params),
        ra == a.begin_outcome(opt),
        rb == b.begin_outcome(opt),
        pa == a.post_outcome(params),
        pb == b.post_outcome(params),
    ensures
        ra == rb,
        pa == pb,
{
}

/// The two shipped adapters are such a pair: the blocking-driver handle and
/// the native-async handle produce identical outcomes for every call, and
/// both always succeed.
pub proof fn lemma_shipped_adapters_agree(m: MysqlDb, s: SpannerDb, opt: bool, params: Params)
    ensures
        m.begin_outcome(opt) == s.begin_outcome(opt),
        m.post_outcome(params) == s.post_outcome(params),
        m.begin_outcome(opt) == Ok::<(), DbError>(()),
        m.post_outcome(params) == Ok::<PostResult, DbError>(PostResult),
{
}

} // verus!
