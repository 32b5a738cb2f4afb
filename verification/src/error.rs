//! The error taxonomy of the booking engine.
//!
//! Transient version-mismatch conflicts are retried internally and never
//! surface here; every variant below is a terminal, caller-visible outcome.

use vstd::prelude::*;

verus! {

/// Caller-visible failure of a booking-engine operation.
///
/// - `DatabaseError`: the underlying store failed; not retried by the engine.
/// - `AuthError`: bad credentials or token trouble.
/// - `ValidationError`: fully booked, a duplicate rebooking attempt,
///   an exhausted retry budget, or a bad seat reference.
/// - `NotFound`: the flight or seat does not exist.
/// - `Conflict`: a terminal business rejection (seat already taken,
///   username already registered).
/// - `Unprocessable`: the request was understood but cannot be acted on.
/// - `BadRequest`: malformed or inconsistent references in the request.
#[derive(Debug, Clone, PartialEq)]
pub enum AppError {
    DatabaseError(String),
    AuthError(String),
    ValidationError(String),
    NotFound(String),
    Conflict(String),
    Unprocessable(String),
    BadRequest(String),
}

pub type AppResult<T> = Result<T, AppError>;

/// What rendering an error for a caller yields, variant tag plus payload.
pub open spec fn spec_display(e: AppError) -> Seq<char> {
    match e {
        AppError::DatabaseError(_) => "Database error"@,
        AppError::AuthError(m) => "Authentication error: "@ + m@,
        AppError::ValidationError(m) => "Validation error: "@ + m@,
        AppError::NotFound(m) => "Not found: "@ + m@,
        AppError::Conflict(m) => "Conflict: "@ + m@,
        AppError::Unprocessable(m) => "Unprocessable: "@ + m@,
        AppError::BadRequest(m) => "Bad request: "@ + m@,
    }
}

impl AppError {
    /// The payload carried by the variant.
    pub fn message(&self) -> (r: &String)
        ensures
            *self matches AppError::DatabaseError(m) ==> r == m,
            *self matches AppError::AuthError(m) ==> r == m,
            *self matches AppError::ValidationError(m) ==> r == m,
            *self matches AppError::NotFound(m) ==> r == m,
            *self matches AppError::Conflict(m) ==> r == m,
            *self matches AppError::Unprocessable(m) ==> r == m,
            *self matches AppError::BadRequest(m) ==> r == m,
    {
        match self {
            AppError::DatabaseError(m) => m,
            AppError::AuthError(m) => m,
            AppError::ValidationError(m) => m,
            AppError::NotFound(m) => m,
            AppError::Conflict(m) => m,
            AppError::Unprocessable(m) => m,
            AppError::BadRequest(m) => m,
        }
    }

    /// Renders the error the way the request layer shows it to a caller.
    pub fn display_string(&self) -> (r: String)
        ensures
            r@ == spec_display(*self),
    {
        let mut out: String;
        match self {
            AppError::DatabaseError(_) => {
                out = "Database error".to_owned();
            },
            AppError::AuthError(m) => {
                out = "Authentication error: ".to_owned();
                out.append(m.as_str());
            },
            AppError::ValidationError(m) => {
                out = "Validation error: ".to_owned();
                out.append(m.as_str());
            },
            AppError::NotFound(m) => {
                out = "Not found: ".to_owned();
                out.append(m.as_str());
            },
            AppError::Conflict(m) => {
                out = "Conflict: ".to_owned();
                out.append(m.as_str());
            },
            AppError::Unprocessable(m) => {
                out = "Unprocessable: ".to_owned();
                out.append(m.as_str());
            },
            AppError::BadRequest(m) => {
                out = "Bad request: ".to_owned();
                out.append(m.as_str());
            },
        }
        out
    }

    /// The HTTP status the request layer maps each variant to.
    pub fn status_code(&self) -> (r: u16)
        ensures
            r == match *self {
                AppError::ValidationError(_) => 400u16,
                AppError::NotFound(_) => 404u16,
                AppError::DatabaseError(_) => 500u16,
                AppError::AuthError(_) => 401u16,
                AppError::Conflict(_) => 409u16,
                AppError::Unprocessable(_) => 422u16,
                AppError::BadRequest(_) => 400u16,
            },
    {
        match self {
            AppError::ValidationError(_) => 400,
            AppError::NotFound(_) => 404,
            AppError::DatabaseError(_) => 500,
            AppError::AuthError(_) => 401,
            AppError::Conflict(_) => 409,
            AppError::Unprocessable(_) => 422,
            AppError::BadRequest(_) => 400,
        }
    }
}

} // verus!
