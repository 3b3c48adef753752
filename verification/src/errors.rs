//! The structured error taxonomy shared by every fallible operation.

use vstd::prelude::*;

verus! {

/// Classification of a rejected request.
#[derive(Clone, Copy, Debug, PartialEq, Eq, Structural)]
pub enum ApiError {
    /// A referenced entity (language, problem, user, contest, job) is unknown.
    NotFound,
    /// The request is well-formed but violates a membership or naming rule.
    InvalidArgument,
    /// The per-(user, problem, contest) submission quota is exhausted.
    RateLimit,
}

impl ApiError {
    /// Numeric code used in error bodies.
    pub fn code(&self) -> (c: u32)
        ensures
            c == self.spec_code(),
    {
        match self {
            ApiError::NotFound => 3,
            ApiError::InvalidArgument => 1,
            ApiError::RateLimit => 4,
        }
    }

    pub open spec fn spec_code(self) -> u32 {
        match self {
            ApiError::NotFound => 3u32,
            ApiError::InvalidArgument => 1u32,
            ApiError::RateLimit => 4u32,
        }
    }

    /// Symbolic reason tag used in error bodies.
    pub fn reason(&self) -> (r: &'static str)
        ensures
            *self is InvalidArgument ==> r@ == "ERR_INVALID_ARGUMENT"@,
            *self is NotFound ==> r@ == "ERR_NOT_FOUND"@,
            *self is RateLimit ==> r@ == "ERR_RATE_LIMIT"@,
    {
        match self {
            ApiError::InvalidArgument => "ERR_INVALID_ARGUMENT",
            ApiError::NotFound => "ERR_NOT_FOUND",
            ApiError::RateLimit => "ERR_RATE_LIMIT",
        }
    }
}

} // verus!
