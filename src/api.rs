//! Errors reported to the callers of the service.

use vstd::prelude::*;

verus! {

/// An error answered to a caller, with its message.
#[derive(Debug)]
pub enum ApiError {
    BadRequest(String),
    NotFound(String),
    Internal(String),
}

impl ApiError {
    /// The input was malformed.
    pub fn bad_request(msg: String) -> (r: ApiError)
        ensures
            r == ApiError::BadRequest(msg),
    {
        ApiError::BadRequest(msg)
    }

    /// Something failed inside the service.
    pub fn internal(msg: String) -> (r: ApiError)
        ensures
            r == ApiError::Internal(msg),
    {
        ApiError::Internal(msg)
    }

    /// The addressed item does not exist.
    pub fn not_found(msg: String) -> (r: ApiError)
        ensures
            r == ApiError::NotFound(msg),
    {
        ApiError::NotFound(msg)
    }

    /// The HTTP status that answers the error: 400, 404 or 500.
    pub fn status_code(&self) -> (r: u16)
        ensures
            r == match self {
                ApiError::BadRequest(_) => 400u16,
                ApiError::NotFound(_) => 404u16,
                ApiError::Internal(_) => 500u16,
            },
    {
        match self {
            ApiError::BadRequest(_) => 400,
            ApiError::NotFound(_) => 404,
            ApiError::Internal(_) => 500,
        }
    }

    /// The error's message.
    pub fn message(&self) -> (r: &String)
        ensures
            *r == match self {
                ApiError::BadRequest(m) => *m,
                ApiError::NotFound(m) => *m,
                ApiError::Internal(m) => *m,
            },
    {
        match self {
            ApiError::BadRequest(m) => m,
            ApiError::NotFound(m) => m,
            ApiError::Internal(m) => m,
        }
    }
}

} // verus!
