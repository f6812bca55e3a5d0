//! Error kinds of the conversation core.
//!
//! `NotFound` and `Forbidden` are distinct on purpose: a caller must be able
//! to tell "the record does not exist" from "it exists but is not yours".

use vstd::prelude::*;

verus! {

/// The error kinds the core can surface.
///
/// - `NotFound`: a session or model is absent.
/// - `Forbidden`: the record exists but is not owned by the caller.
/// - `Conflict`: a uniqueness rule would be broken.
/// - `BadRequest`: the backend rejected the initial handshake.
/// - `Internal`: a transport, parse or persistence failure.
#[derive(Debug)]
pub enum AppError {
    Forbidden(String),
    NotFound(String),
    Conflict(String),
    BadRequest(String),
    Internal(String),
}

impl AppError {
    /// The detail text carried by the error, whatever its kind.
    pub open spec fn spec_detail(&self) -> Seq<char> {
        match self {
            AppError::Forbidden(s) => s@,
            AppError::NotFound(s) => s@,
            AppError::Conflict(s) => s@,
            AppError::BadRequest(s) => s@,
            AppError::Internal(s) => s@,
        }
    }

    /// A short, stable name for the kind, usable as a protocol label.
    pub fn kind_name(&self) -> (r: &'static str)
        ensures
            self is Forbidden ==> r@ == "Forbidden"@,
            self is NotFound ==> r@ == "NotFound"@,
            self is Conflict ==> r@ == "Conflict"@,
            self is BadRequest ==> r@ == "BadRequest"@,
            self is Internal ==> r@ == "Internal"@,
    {
        match self {
            AppError::Forbidden(_) => "Forbidden",
            AppError::NotFound(_) => "NotFound",
            AppError::Conflict(_) => "Conflict",
            AppError::BadRequest(_) => "BadRequest",
            AppError::Internal(_) => "Internal",
        }
    }

    /// The detail text, for reporting.
    pub fn detail(&self) -> (r: &String)
        ensures
            r@ == self.spec_detail(),
    {
        match self {
            AppError::Forbidden(s) => s,
            AppError::NotFound(s) => s,
            AppError::Conflict(s) => s,
            AppError::BadRequest(s) => s,
            AppError::Internal(s) => s,
        }
    }
}

} // verus!
