//! Application error model.
//!
//! Every error carries its message as plain text.  The library reports errors
//! through `std::result::Result<T, AppError>`; the presentation layer turns
//! them into whatever wire format it needs.

use vstd::prelude::*;

verus! {

/// The application's error taxonomy.
#[derive(Debug, Clone)]
pub enum AppError {
    /// Database failure, reported by the storage collaborator.
    Database(String),
    /// A referenced record does not exist.
    NotFound(String),
    /// An input value violates a field constraint.
    InvalidInput(String),
    /// A business rule was violated.
    Business(String),
    /// Input/output failure outside the database.
    Io(String),
    /// Serialization or deserialization failure.
    Serialization(String),
}

impl AppError {
    /// The raw message, without any category prefix.
    pub fn message(&self) -> (r: &String)
        ensures
            r@ == self.message_spec(),
    {
        match self {
            AppError::Database(m) => m,
            AppError::NotFound(m) => m,
            AppError::InvalidInput(m) => m,
            AppError::Business(m) => m,
            AppError::Io(m) => m,
            AppError::Serialization(m) => m,
        }
    }

    pub open spec fn message_spec(self) -> Seq<char> {
        match self {
            AppError::Database(m) => m@,
            AppError::NotFound(m) => m@,
            AppError::InvalidInput(m) => m@,
            AppError::Business(m) => m@,
            AppError::Io(m) => m@,
            AppError::Serialization(m) => m@,
        }
    }
}

/// Error shape handed to the presentation layer: a message plus a numeric
/// status code in the HTTP convention.
#[derive(Debug, Clone)]
pub struct ErrorResponse {
    pub error: String,
    pub code: i32,
    pub details: Option<String>,
}

impl ErrorResponse {
    pub fn database_error(msg: String) -> (r: ErrorResponse)
        ensures
            r.error@ == msg@,
            r.code == 500,
            r.details is None,
    {
        ErrorResponse { error: msg, code: 500, details: None }
    }

    pub fn not_found(msg: String) -> (r: ErrorResponse)
        ensures
            r.error@ == msg@,
            r.code == 404,
            r.details is None,
    {
        ErrorResponse { error: msg, code: 404, details: None }
    }

    pub fn invalid_input(msg: String) -> (r: ErrorResponse)
        ensures
            r.error@ == msg@,
            r.code == 400,
            r.details is None,
    {
        ErrorResponse { error: msg, code: 400, details: None }
    }

    pub fn business_error(msg: String) -> (r: ErrorResponse)
        ensures
            r.error@ == msg@,
            r.code == 422,
            r.details is None,
    {
        ErrorResponse { error: msg, code: 422, details: None }
    }
}

} // verus!
