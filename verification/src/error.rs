//! The error every request can end in, and how it is answered:
//! an HTTP status and the body `{ "error": <message> }`.

use vstd::prelude::*;
use crate::models::ErrorResponse;
use crate::text::copy_str;

verus! {

/// Why a request failed.
#[derive(Debug)]
pub enum AppError {
    /// The request itself is wrong (400).
    BadRequest(String),
    /// Missing or wrong credentials (401).
    Auth(String),
    /// The record asked for does not exist for this user (404).
    NotFound(String),
    /// The server could not complete the request (500).
    Internal(String),
}

impl AppError {
    /// The HTTP status of the answer.
    pub open spec fn status_spec(&self) -> u16 {
        match self {
            AppError::BadRequest(_) => 400,
            AppError::Auth(_) => 401,
            AppError::NotFound(_) => 404,
            AppError::Internal(_) => 500,
        }
    }

    /// The message carried by the error.
    pub open spec fn message_spec(&self) -> Seq<char> {
        match self {
            AppError::BadRequest(m) => m@,
            AppError::Auth(m) => m@,
            AppError::NotFound(m) => m@,
            AppError::Internal(m) => m@,
        }
    }

    /// The HTTP status of the answer.
    pub fn status_code(&self) -> (code: u16)
        ensures
            code == self.status_spec(),
    {
        match self {
            AppError::BadRequest(_) => 400,
            AppError::Auth(_) => 401,
            AppError::NotFound(_) => 404,
            AppError::Internal(_) => 500,
        }
    }

    /// The message carried by the error.
    pub fn message(&self) -> (m: String)
        ensures
            m@ == self.message_spec(),
    {
        match self {
            AppError::BadRequest(m) => copy_str(m.as_str()),
            AppError::Auth(m) => copy_str(m.as_str()),
            AppError::NotFound(m) => copy_str(m.as_str()),
            AppError::Internal(m) => copy_str(m.as_str()),
        }
    }

    /// The body of the answer: `{ "error": <message> }`.
    pub fn to_response(&self) -> (r: ErrorResponse)
        ensures
            r.error@ == self.message_spec(),
    {
        ErrorResponse { error: self.message() }
    }
}

} // verus!
