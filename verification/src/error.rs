//! The errors that requests are answered with.

use vstd::prelude::*;

verus! {

/// An error with its HTTP status and its message.
#[derive(Debug, Clone)]
pub struct ApiError {
    pub status: u16,
    pub message: String,
}

pub const BAD_REQUEST: u16 = 400;

pub const UNAUTHORIZED: u16 = 401;

pub const FORBIDDEN: u16 = 403;

pub const NOT_FOUND: u16 = 404;

pub const INTERNAL: u16 = 500;

impl ApiError {
    /// Whether this is the error of the given status and message.
    pub open spec fn is(self, status: u16, message: Seq<char>) -> bool {
        self.status == status && self.message@ == message
    }

    pub fn new(status: u16, message: &str) -> (res: ApiError)
        ensures
            res.is(status, message@),
    {
        ApiError { status, message: message.to_owned() }
    }

    pub fn not_found(message: &str) -> (res: ApiError)
        ensures
            res.is(NOT_FOUND, message@),
    {
        ApiError::new(NOT_FOUND, message)
    }

    pub fn bad_request(message: &str) -> (res: ApiError)
        ensures
            res.is(BAD_REQUEST, message@),
    {
        ApiError::new(BAD_REQUEST, message)
    }

    pub fn internal(message: &str) -> (res: ApiError)
        ensures
            res.is(INTERNAL, message@),
    {
        ApiError::new(INTERNAL, message)
    }
}

} // verus!
