use vstd::prelude::*;

verus! {

/// The kinds of failure that the runtime reports.
#[derive(Clone, Copy, Debug, PartialEq, Eq, Structural, Hash)]
pub enum Error {
    /// A key-value store error that retrying did not resolve.
    Kv,
    /// A persisted header, state or key failed to decode.
    Decode,
    /// The state function returned an error.
    StateFn,
    /// An operation has no budget left for the messages being sent.
    BudgetExceeded,
    /// A repartition towards another target is already in progress.
    RepartitionConflict,
    /// A blob referenced by a message header is missing.
    MissingBlob,
    /// The task was cancelled.
    Cancelled,
}

impl Error {
    /// A short description of the error.
    pub fn message(&self) -> (r: &'static str) {
        match self {
            Error::Kv => "key-value store error",
            Error::Decode => "failed to decode a persisted value",
            Error::StateFn => "state function returned an error",
            Error::BudgetExceeded => "budget exceeded for operation",
            Error::RepartitionConflict =>
                "partition change operation already in progress with different target",
            Error::MissingBlob => "blob not found",
            Error::Cancelled => "cancelled",
        }
    }
}

} // verus!
