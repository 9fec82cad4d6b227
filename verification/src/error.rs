use vstd::prelude::*;

verus! {

/// Error kinds surfaced by the cache.
#[derive(Clone, Debug, PartialEq, Eq)]
pub enum CacheError {
    /// A key is absent and the driver also reports it missing.
    NotFound,
    /// Transport or marshalling failure from the driver; carries the
    /// underlying cause as text.
    DriverError(String),
    /// The reply channel closed before the actor could answer; misuse or a
    /// shutdown race.
    ProtocolError,
    /// An extractor's predicate rejected an event; a flow-control signal,
    /// never a panic.
    PredicateFailure(String),
    /// The actor answered with a different response variant than the
    /// request expected.
    InvalidResponse,
    /// The request channel closed after cancellation; seen by producers
    /// during shutdown.
    ShutdownInProgress,
}

impl CacheError {
    /// A short stable name for the error kind, for logs and messages.
    pub fn kind_name(&self) -> (r: &'static str)
        ensures
            r@ == self.spec_kind_name(),
    {
        match self {
            CacheError::NotFound => "not found",
            CacheError::DriverError(_) => "driver error",
            CacheError::ProtocolError => "protocol error",
            CacheError::PredicateFailure(_) => "predicate failure",
            CacheError::InvalidResponse => "invalid response",
            CacheError::ShutdownInProgress => "shutdown in progress",
        }
    }

    /// The name that [`CacheError::kind_name`] returns for each kind.
    pub open spec fn spec_kind_name(self) -> Seq<char> {
        match self {
            CacheError::NotFound => "not found"@,
            CacheError::DriverError(_) => "driver error"@,
            CacheError::ProtocolError => "protocol error"@,
            CacheError::PredicateFailure(_) => "predicate failure"@,
            CacheError::InvalidResponse => "invalid response"@,
            CacheError::ShutdownInProgress => "shutdown in progress"@,
        }
    }
}

} // verus!
