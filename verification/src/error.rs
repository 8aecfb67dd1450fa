//! The fatal error categories that a generation call can surface.

use vstd::prelude::*;

verus! {

/// Everything that can abort a generation call.
///
/// Per-chunk problems (a chunk that is not UTF-8, that is bare array
/// punctuation, or that does not parse as a response object) are absorbed
/// by the reassembler and never become an error; only these fatal
/// categories reach the caller.
#[derive(Debug, Clone, PartialEq)]
pub enum GenerateError {
    /// No credential was supplied and none could be found in the
    /// environment: a configuration error, surfaced before any network
    /// activity.
    MissingCredential,
    /// The connection failed or was cut while streaming.
    Transport { message: String },
    /// The upstream service answered with a non-success HTTP status,
    /// before any streaming began.
    Upstream { status: u16, body: String },
}

impl GenerateError {
    /// A short label for the error category, usable in messages.
    pub fn kind(&self) -> (r: &'static str)
        ensures
            r@ == match self {
                GenerateError::MissingCredential => "missing credential"@,
                GenerateError::Transport { .. } => "transport error"@,
                GenerateError::Upstream { .. } => "upstream error"@,
            },
    {
        match self {
            GenerateError::MissingCredential => "missing credential",
            GenerateError::Transport { .. } => "transport error",
            GenerateError::Upstream { .. } => "upstream error",
        }
    }
}

/// Picks the credential for a call: an explicit argument wins, otherwise
/// whatever the caller found in its environment, otherwise the call is
/// refused with [`GenerateError::MissingCredential`].
pub fn resolve_credential(explicit: Option<String>, from_env: Option<String>) -> (r: Result<
    String,
    GenerateError,
>)
    ensures
        match (explicit, from_env) {
            (Some(k), _) => r == Ok::<String, GenerateError>(k),
            (None, Some(k)) => r == Ok::<String, GenerateError>(k),
            (None, None) => r == Err::<String, GenerateError>(GenerateError::MissingCredential),
        },
{
    match explicit {
        Some(k) => Ok(k),
        None => match from_env {
            Some(k) => Ok(k),
            None => Err(GenerateError::MissingCredential),
        },
    }
}

} // verus!
