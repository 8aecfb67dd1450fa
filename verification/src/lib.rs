//! Core logic of a streaming client for a generative-content HTTP API.
//!
//! The upstream service answers a `POST` request with a stream of byte
//! chunks that, concatenated, form a JSON array of response objects.  This
//! crate holds the verified parts of such a client: building the JSON
//! request body, resolving the credential, reassembling the chunk stream
//! into the concatenated response text, and the session state machine that
//! a caller drives with transport events.  The network itself stays with
//! the caller; every function here is plain computation with a contract.

pub mod cli;
pub mod encoding;
pub mod error;
pub mod fragment;
pub mod json;
pub mod markers;
pub mod reassembler;
pub mod request;
pub mod response;
pub mod session;

pub use cli::parse_args;
pub use error::{resolve_credential, GenerateError};
pub use markers::{parse_citation, parse_file_download};
pub use reassembler::{assemble_chunks, Reassembler};
pub use request::{build_conversation_body, build_request_body, request_url, MessageRole};
pub use session::Session;
