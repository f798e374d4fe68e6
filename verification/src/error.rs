//! The failures a backend fetch can report.

use vstd::prelude::*;

verus! {

/// Why a fetch did not produce a value.
#[derive(Clone, Copy, Debug, PartialEq, Eq, Structural)]
pub enum FetchError {
    /// The connection failed while a request or a result sequence was in flight.
    TransportError,
    /// The store refused the credential.
    AuthError,
    /// A payload did not have the expected shape.
    DecodeError,
    /// The store could not be reached at all.
    BackendUnavailable,
    /// The store reported a pipeline stage as invalid.
    PipelineRejected,
    /// A result group lacks its key, or the key has an unexpected type.
    MalformedSummary,
    /// The node knows no account under the identifier.
    AccountNotFound,
    /// The RPC round trip failed.
    RpcTransportError,
}

/// What a backend's fetch produced: a typed value or the reason it has none.
pub type FetchResult<T> = Result<T, FetchError>;

impl FetchError {
    /// The name of the failure, as it is shown in a report.
    pub open spec fn name(self) -> Seq<char> {
        match self {
            FetchError::TransportError => "TransportError"@,
            FetchError::AuthError => "AuthError"@,
            FetchError::DecodeError => "DecodeError"@,
            FetchError::BackendUnavailable => "BackendUnavailable"@,
            FetchError::PipelineRejected => "PipelineRejected"@,
            FetchError::MalformedSummary => "MalformedSummary"@,
            FetchError::AccountNotFound => "AccountNotFound"@,
            FetchError::RpcTransportError => "RpcTransportError"@,
        }
    }

    /// The name of the failure.
    pub fn describe(&self) -> (text: &'static str)
        ensures
            text@ == self.name(),
    {
        match self {
            FetchError::TransportError => "TransportError",
            FetchError::AuthError => "AuthError",
            FetchError::DecodeError => "DecodeError",
            FetchError::BackendUnavailable => "BackendUnavailable",
            FetchError::PipelineRejected => "PipelineRejected",
            FetchError::MalformedSummary => "MalformedSummary",
            FetchError::AccountNotFound => "AccountNotFound",
            FetchError::RpcTransportError => "RpcTransportError",
        }
    }
}

} // verus!
