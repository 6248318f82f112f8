//! The errors of the scanner's modules.
use vstd::prelude::*;

verus! {

/// A failed request of the HTTP client, carried through as it came.
#[verifier::external_type_specification]
#[verifier::external_body]
pub struct ExReqwestError(reqwest::Error);

/// A task of the runtime that did not finish, carried through as it came.
#[verifier::external_type_specification]
#[verifier::external_body]
pub struct ExJoinError(tokio::task::JoinError);

/// Why a module could not finish its work.
#[derive(Debug)]
pub enum ModuleError {
    /// The HTTP request itself failed.
    Reqwest(reqwest::Error),
    /// A blocking task of the runtime failed.
    TokioJoin(tokio::task::JoinError),
    /// The service answered, but not with what the named module expects.
    InvalidHttpResponse(String),
}

} // verus!
