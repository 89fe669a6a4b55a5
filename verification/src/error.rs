//! The error answered to a refused request.
use vstd::prelude::*;

verus! {

/// Why a request was refused, with the message shown to the caller.
#[derive(Debug)]
pub enum ResponseError {
    BadRequest(String),
    Forbidden(String),
    NotFound(String),
    Conflict(String),
    Gone(String),
    PreconditionFailed(String),
    InternalServerError(String),
}

impl ResponseError {
    /// The message carried by the error.
    pub open spec fn msg(&self) -> Seq<char> {
        match self {
            ResponseError::BadRequest(m) => m@,
            ResponseError::Forbidden(m) => m@,
            ResponseError::NotFound(m) => m@,
            ResponseError::Conflict(m) => m@,
            ResponseError::Gone(m) => m@,
            ResponseError::PreconditionFailed(m) => m@,
            ResponseError::InternalServerError(m) => m@,
        }
    }

    /// The text shown for the error.
    pub fn message(&self) -> (m: String)
        ensures
            m@ == self.msg(),
    {
        match self {
            ResponseError::BadRequest(m) => m.clone(),
            ResponseError::Forbidden(m) => m.clone(),
            ResponseError::NotFound(m) => m.clone(),
            ResponseError::Conflict(m) => m.clone(),
            ResponseError::Gone(m) => m.clone(),
            ResponseError::PreconditionFailed(m) => m.clone(),
            ResponseError::InternalServerError(m) => m.clone(),
        }
    }
}

pub open spec fn is_bad_request(r: Result<(), ResponseError>, m: Seq<char>) -> bool {
    r matches Err(ResponseError::BadRequest(s)) && s@ == m
}

/// A `BadRequest` carrying `m`.
pub fn bad_request(m: &str) -> (e: ResponseError)
    ensures
        e matches ResponseError::BadRequest(s) && s@ == m@,
{
    ResponseError::BadRequest(m.to_owned())
}

/// A `PreconditionFailed` carrying `m`.
pub fn precondition_failed(m: &str) -> (e: ResponseError)
    ensures
        e matches ResponseError::PreconditionFailed(s) && s@ == m@,
{
    ResponseError::PreconditionFailed(m.to_owned())
}

/// A `Conflict` carrying `m`.
pub fn conflict(m: &str) -> (e: ResponseError)
    ensures
        e matches ResponseError::Conflict(s) && s@ == m@,
{
    ResponseError::Conflict(m.to_owned())
}

} // verus!
