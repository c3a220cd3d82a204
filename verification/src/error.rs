//! The error taxonomy: registration-time errors halt startup, per-request
//! errors degrade to an HTTP status and never take a worker down.
use vstd::prelude::*;

use crate::route::CompileError;

verus! {

/// Why a route could not be registered. Startup-fatal.
#[derive(Clone, Copy, PartialEq, Eq, Structural, Debug)]
pub enum RegisterError {
    /// The pattern did not compile.
    Compile(CompileError),
    /// A route with the same method and pattern already exists.
    DuplicateRoute,
}

/// Why one request could not be served. Each maps to a response status and is
/// confined to its own connection.
#[derive(Clone, Copy, PartialEq, Eq, Structural, Debug)]
pub enum HttpError {
    /// The request could not be parsed.
    BadRequest,
    /// A matched parameter could not be converted to its declared type.
    ParseError,
    /// No registered route matches the request.
    NotFound,
    /// The handler failed while serving the request.
    HandlerFailure,
}

pub open spec fn status_of(e: HttpError) -> int {
    match e {
        HttpError::BadRequest => 400,
        HttpError::ParseError => 400,
        HttpError::NotFound => 404,
        HttpError::HandlerFailure => 500,
    }
}

/// The response status an error surfaces as.
pub fn status_code(e: HttpError) -> (r: i16)
    ensures
        r as int == status_of(e),
{
    match e {
        HttpError::BadRequest => 400,
        HttpError::ParseError => 400,
        HttpError::NotFound => 404,
        HttpError::HandlerFailure => 500,
    }
}

} // verus!
