//! Errors of the model client.
use vstd::prelude::*;

verus! {

/// What can go wrong when talking to the model.
#[derive(Debug, Clone, PartialEq, Eq)]
pub enum AiError {
    /// No API key is configured.
    MissingApiKey,
    /// The API answered with an error.
    ApiError(String),
    /// A file that was asked for does not exist.
    FileNotFound(String),
    /// The answer did not have the expected shape.
    InvalidResponse { reason: String, raw: String },
}

} // verus!
