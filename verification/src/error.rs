//! The failures that a request can end in, and the status each is answered
//! with.

use crate::sandbox::SandboxError;
use vstd::prelude::*;

verus! {

/// A failed request. No failure is retried: each ends its request.
#[derive(Clone, Copy, Debug, PartialEq, Eq, Structural)]
pub enum ApiError {
    /// The requested path tries to leave the root through a parent
    /// directory.
    IllegalPath,
    /// The path lies outside the root.
    AccessDenied,
    /// No such file, directory or root.
    NotFound,
    /// The request does not fit what it names, or lacks a field.
    BadRequest,
    /// What is to be created exists already.
    Conflict,
    /// Reading, writing or looking up failed.
    IoFailure,
}

/// The HTTP status that answers a failure.
pub open spec fn status_of(e: ApiError) -> u16 {
    match e {
        ApiError::IllegalPath => 404,
        ApiError::AccessDenied => 403,
        ApiError::NotFound => 404,
        ApiError::BadRequest => 400,
        ApiError::Conflict => 409,
        ApiError::IoFailure => 500,
    }
}

/// The failure that a refusal by the sandbox becomes.
pub open spec fn refusal(e: SandboxError) -> ApiError {
    match e {
        SandboxError::IllegalPath => ApiError::IllegalPath,
        SandboxError::AccessDenied => ApiError::AccessDenied,
        SandboxError::NotFound => ApiError::NotFound,
    }
}

impl ApiError {
    /// The HTTP status that answers this failure.
    pub fn status_code(&self) -> (r: u16)
        ensures
            r == status_of(*self),
    {
        match self {
            ApiError::IllegalPath => 404,
            ApiError::AccessDenied => 403,
            ApiError::NotFound => 404,
            ApiError::BadRequest => 400,
            ApiError::Conflict => 409,
            ApiError::IoFailure => 500,
        }
    }

    /// The failure that a refusal by the sandbox becomes.
    pub fn from_sandbox(e: SandboxError) -> (r: ApiError)
        ensures
            r == refusal(e),
    {
        match e {
            SandboxError::IllegalPath => ApiError::IllegalPath,
            SandboxError::AccessDenied => ApiError::AccessDenied,
            SandboxError::NotFound => ApiError::NotFound,
        }
    }
}

} // verus!
