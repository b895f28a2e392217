//! Errors that a request can end in, and the HTTP answer to each.

use vstd::prelude::*;

use crate::text::string_from;

verus! {

/// `anyhow::Error`, carried through the library without being read.
#[verifier::external_type_specification]
#[verifier::external_body]
pub struct ExAnyhowError(anyhow::Error);

/// The ways a request can fail.
#[derive(Debug)]
pub enum AppError {
    Internal(anyhow::Error),
    NotFound(String),
    BadRequest(String),
}

/// The HTTP status of the answer to an error.
pub open spec fn status_of(e: AppError) -> u16 {
    match e {
        AppError::Internal(_) => 500,
        AppError::NotFound(_) => 404,
        AppError::BadRequest(_) => 400,
    }
}

/// The body of the answer to an error: the message, but never the details of
/// an internal error.
pub open spec fn message_of(e: AppError) -> Seq<char> {
    match e {
        AppError::Internal(_) => "Internal Server Error"@,
        AppError::NotFound(m) => m@,
        AppError::BadRequest(m) => m@,
    }
}

impl AppError {
    /// The HTTP status code of the answer: 500, 404 or 400.
    pub fn status_code(&self) -> (r: u16)
        ensures
            r == status_of(*self),
    {
        match self {
            AppError::Internal(_) => 500,
            AppError::NotFound(_) => 404,
            AppError::BadRequest(_) => 400,
        }
    }

    /// The body of the answer.
    pub fn message(&self) -> (r: String)
        ensures
            r@ == message_of(*self),
    {
        match self {
            AppError::Internal(_) => string_from("Internal Server Error"),
            AppError::NotFound(m) => m.clone(),
            AppError::BadRequest(m) => m.clone(),
        }
    }
}

} // verus!
