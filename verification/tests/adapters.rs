use std::sync::Arc;

use dbswitch::db::Db;
use dbswitch::db::Info;
use dbswitch::db::MysqlDb;
use dbswitch::db::Params;
use dbswitch::db::PostResult;
use dbswitch::db::SpannerDb;
use dbswitch::errors::BackendError;
use dbswitch::errors::ChannelError;
use dbswitch::errors::DbError;
use dbswitch::pool::new_worker_pool;
use dbswitch::pool::run_on_blocking_threadpool;

#[test]
fn basic() {}

#[test]
fn blocking_adapter_runs_through_the_pool() {
    let pool = Arc::new(new_worker_pool(8).expect("the pool builds"));
    let mut db = MysqlDb::new(pool);
    assert_eq!(db.begin(true), Ok(()));
    assert_eq!(db.begin(false), Ok(()));
    assert_eq!(db.post(Params), Ok(PostResult));
    assert_eq!(db.info(), Info);
}

#[test]
fn native_async_adapter_answers_directly() {
    let mut db = SpannerDb;
    assert_eq!(db.begin(true), Ok(()));
    assert_eq!(db.post(Params), Ok(PostResult));
    assert_eq!(db.info(), Info);
}

#[test]
fn adapter_equivalence_on_always_ok_logic() {
    // The offloading route and the direct route are indistinguishable to the
    // caller: same outcomes, same payloads.
    let pool = Arc::new(new_worker_pool(4).expect("the pool builds"));
    let mut blocking = MysqlDb::new(pool);
    let mut native = SpannerDb;
    assert_eq!(blocking.begin(true), native.begin(true));
    assert_eq!(blocking.begin(false), native.begin(false));
    assert_eq!(blocking.post(Params), native.post(Params));
    assert_eq!(blocking.info(), native.info());
}

#[test]
fn sync_and_async_bodies_agree() {
    let pool = Arc::new(new_worker_pool(2).expect("the pool builds"));
    let mut m = MysqlDb::new(pool);
    let mut s = SpannerDb;
    assert_eq!(m.begin_sync(true), s.begin_async(true));
    assert_eq!(m.post_sync(Params), s.post_async(Params));
}

#[test]
fn offload_returns_the_work_outcome() {
    // The pool hands back what the unit of work computed, not what went in.
    let pool = new_worker_pool(2).expect("the pool builds");
    let r = run_on_blocking_threadpool(&pool, || Ok::<u64, DbError>(41 + 1));
    assert_eq!(r, Ok(42));
}

#[test]
fn offload_passes_backend_error_through() {
    let pool = new_worker_pool(2).expect("the pool builds");
    let r = run_on_blocking_threadpool(&pool, || {
        Err::<u64, DbError>(DbError::Backend(BackendError::ConstraintViolation))
    });
    assert_eq!(r, Err(DbError::Backend(BackendError::ConstraintViolation)));
}

#[test]
fn channel_failures_are_distinguishable() {
    let e = DbError::Channel(ChannelError::Saturated);
    assert!(e.is_channel_failure());
    let e = DbError::Channel(ChannelError::ShutDown);
    assert!(e.is_channel_failure());
    let e = DbError::Channel(ChannelError::WorkerFailed);
    assert!(e.is_channel_failure());
    let e = DbError::Backend(BackendError::Connectivity);
    assert!(!e.is_channel_failure());
}
