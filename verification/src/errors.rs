//! Error kinds surfaced by the inference core and its provider facades.

use vstd::prelude::*;

verus! {

/// Errors surfaced by the inference core.
///
/// `ExecutionError` covers failures below the level of user
/// misconfiguration; `ContextLengthExceeded` is raised when a prompt
/// provably cannot fit; `NotFound` when a model id is unknown or a file
/// is missing; `BadRequest` for malformed input; `Cancelled` when the
/// consumer dropped the stream. The remaining variants are produced by
/// the cloud provider facades that share this error type.
#[derive(Debug, Clone, PartialEq, Eq)]
pub enum ProviderError {
    ExecutionError(String),
    ContextLengthExceeded(String),
    NotFound(String),
    BadRequest(String),
    Cancelled,
    CreditsExhausted { details: String, top_up_url: Option<String> },
    ServerError(String),
    Authentication(String),
}

} // verus!
