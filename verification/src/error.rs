use vstd::prelude::*;

verus! {

/// Every failure a contract operation can surface. Each aborts the whole
/// invocation: a caller that sees an error must discard all state changes.
#[derive(Debug, PartialEq, Eq)]
pub enum ContractError {
    /// A keyshare was requested by someone other than the record's creator.
    Unauthorized,
    /// The 30-day cooldown since the record's last submission has not elapsed.
    NotYetDue,
    /// No identity record exists under the given identity string.
    RecordNotFound,
    /// A reply arrived for a correlation id that was never allocated or was
    /// already consumed.
    PendingRequestNotFound { id: u64 },
    /// A successful reply carried no response payload.
    ReplyMissingData,
    /// The external call behind a pending request reported failure.
    ReplyError { error: String },
    /// A keyshare write arrived before any keyshare request set the
    /// process-wide requester.
    RequesterNotSet,
    /// A reply payload matched neither known response shape.
    UnrecognizedResponse,
}

} // verus!
