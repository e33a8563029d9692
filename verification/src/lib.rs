//! A non-blocking database-access abstraction over interchangeable backends.
//!
//! Backends with only blocking drivers are adapted by routing each operation
//! through a bounded worker pool; natively asynchronous backends are adapted
//! directly.  The scheduling state of the offload facility is modelled by
//! a task channel whose operations carry the exactly-once and
//! bounded-concurrency guarantees as contracts.

pub mod channel;
pub mod db;
pub mod errors;
pub mod pool;
