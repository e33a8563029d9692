use vstd::prelude::*;

verus! {

/// A failure of the underlying backend operation itself: the opaque payload
/// carried through the interface unchanged.
#[derive(Clone, Copy, Debug, PartialEq, Eq, Structural)]
pub enum BackendError {
    Connectivity,
    ConstraintViolation,
    Timeout,
}

/// A failure of the offload mechanism rather than of the backend: the pool
/// rejected the submission, was shut down, or a worker terminated abnormally.
#[derive(Clone, Copy, Debug, PartialEq, Eq, Structural)]
pub enum ChannelError {
    Saturated,
    ShutDown,
    WorkerFailed,
}

/// The single error kind every operation of the capability returns, wrapping
/// either the backend's own failure or a channel-level failure.
#[derive(Clone, Copy, Debug, PartialEq, Eq, Structural)]
pub enum DbError {
    Backend(BackendError),
    Channel(ChannelError),
}

impl DbError {
    /// Whether this error came from the offload mechanism rather than the
    /// backend operation itself.
    pub fn is_channel_failure(&self) -> (r: bool)
        ensures
            r == (self is Channel),
    {
        match self {
            DbError::Channel(_) => true,
            DbError::Backend(_) => false,
        }
    }
}

} // verus!
