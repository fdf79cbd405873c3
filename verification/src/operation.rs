use vstd::prelude::*;

use crate::event::EventError;

verus! {

/// Classification of an operation failure. Reasons of caller-caused failures
/// are safe to surface; internal causes are kept for server-side logging only.
#[derive(Debug)]
pub enum Error {
    /// A caller or domain precondition was violated.
    BadRequest { reason: String },
    /// An unexpected failure; the cause is never surfaced to the caller.
    InternalServerError { error: String },
    /// The requested resource does not exist at all.
    NotFoundError,
}

/// The body shape of a rendered response, alongside its status code.
#[derive(Debug)]
pub enum ResponseBody {
    /// The serialized operation output.
    Data,
    /// A JSON `null` body.
    Null,
    /// `{ "success": false, "reason": ... }`.
    Failure { reason: String },
    /// No body at all.
    Empty,
}

impl Error {
    /// The transport status this failure maps to.
    pub open spec fn spec_status_code(&self) -> u16 {
        match self {
            Error::BadRequest { .. } => 400,
            Error::NotFoundError => 404,
            Error::InternalServerError { .. } => 500,
        }
    }

    pub fn status_code(&self) -> (s: u16)
        ensures
            s == self.spec_status_code(),
    {
        match self {
            Error::BadRequest { .. } => 400,
            Error::NotFoundError => 404,
            Error::InternalServerError { .. } => 500,
        }
    }

    /// Whether this failure is internal: only such failures are logged, and
    /// their cause never reaches the response body.
    pub fn is_internal(&self) -> (r: bool)
        ensures
            r == (self is InternalServerError),
    {
        match self {
            Error::InternalServerError { .. } => true,
            _ => false,
        }
    }

    /// Wraps a storage-layer failure; such failures are always internal
    /// unless a lower layer has already reclassified them.
    pub fn from_storage_error(cause: String) -> (r: Error)
        ensures
            r matches Error::InternalServerError { error } && error@ == cause@,
    {
        Error::InternalServerError { error: cause }
    }
}

impl Error {
    /// Reclassifies an event-layer failure: a missing acting user is the
    /// caller's fault and safe to surface, everything else is internal.
    pub fn from_event_error(error: EventError) -> (r: Error)
        ensures
            (error is MissingUser ==> (r matches Error::BadRequest { reason }
                && reason@ == "acting user does not exist"@)),
            (error matches EventError::DatabaseError { inner } ==> (r
                matches Error::InternalServerError { error: cause } && cause@ == inner@)),
            (error is InvalidType ==> r is InternalServerError),
    {
        match error {
            EventError::MissingUser => Error::BadRequest {
                reason: "acting user does not exist".to_owned(),
            },
            EventError::DatabaseError { inner } => Error::InternalServerError { error: inner },
            EventError::InvalidType => Error::InternalServerError {
                error: "invalid event type".to_owned(),
            },
        }
    }
}

/// How a finished operation is rendered: success keeps its serialized output
/// with status 200; each failure kind maps to its own status and body shape,
/// and internal causes are left out of the body.
pub open spec fn spec_render<T>(result: Result<T, Error>) -> (u16, ResponseBody) {
    match result {
        Ok(_) => (200u16, ResponseBody::Data),
        Err(Error::BadRequest { reason }) => (400u16, ResponseBody::Failure { reason }),
        Err(Error::NotFoundError) => (404u16, ResponseBody::Null),
        Err(Error::InternalServerError { .. }) => (500u16, ResponseBody::Empty),
    }
}

/// Renders an operation result to its status code and body shape.
pub fn render<T>(result: Result<T, Error>) -> (r: (u16, ResponseBody))
    ensures
        r == spec_render(result),
{
    match result {
        Ok(_) => (200, ResponseBody::Data),
        Err(Error::BadRequest { reason }) => (400, ResponseBody::Failure { reason }),
        Err(Error::NotFoundError) => (404, ResponseBody::Null),
        Err(Error::InternalServerError { .. }) => (500, ResponseBody::Empty),
    }
}

/// The body of a mutation that reports only that it went through.
#[derive(Debug)]
pub struct SuccessOutput {
    pub success: bool,
}

} // verus!
