//! The error taxonomy of the API core, and the single place where raw
//! persistence failures are translated into it.

use vstd::prelude::*;

verus! {

/// Typed failure taxonomy. Each variant carries the externally visible
/// message; the HTTP layer maps each variant to a status code through
/// [`AppError::status_code`].
#[derive(Debug, Clone)]
pub enum AppError {
    /// Identity could not be established (missing/malformed header,
    /// expired/invalid token, unparseable subject, bad credentials).
    AuthError(String),
    /// Identity was established but the role is not permitted.
    AuthzError(String),
    /// Malformed caller input.
    ValidationError(String),
    /// The requested resource does not exist.
    NotFoundError(String),
    /// Uniqueness violation or a delete blocked by dependent records.
    ConflictError(String),
    /// A persistence failure that maps to no more specific variant.
    DatabaseError(String),
    /// Hashing/signing primitive failure or a violated configuration
    /// precondition.
    InternalError(String),
}

impl AppError {
    /// The HTTP status code this failure maps to.
    pub fn status_code(&self) -> (code: u16)
        ensures
            code == match self {
                AppError::AuthError(_) => 401u16,
                AppError::AuthzError(_) => 403u16,
                AppError::ValidationError(_) => 400u16,
                AppError::NotFoundError(_) => 404u16,
                AppError::ConflictError(_) => 409u16,
                AppError::DatabaseError(_) => 500u16,
                AppError::InternalError(_) => 500u16,
            },
    {
        match self {
            AppError::AuthError(_) => 401,
            AppError::AuthzError(_) => 403,
            AppError::ValidationError(_) => 400,
            AppError::NotFoundError(_) => 404,
            AppError::ConflictError(_) => 409,
            AppError::DatabaseError(_) => 500,
            AppError::InternalError(_) => 500,
        }
    }
}

/// What the persistence layer reports about a failed statement, reduced to
/// plain values: the driver-specific error code if the database itself
/// rejected the statement, a missing row, or anything else with its message.
#[derive(Debug, Clone)]
pub enum DbFailure {
    /// The database rejected the statement; `code` is the driver error code
    /// when one was reported.
    Database { code: Option<String>, message: String },
    /// A query that had to return a row returned none.
    RowNotFound,
    /// Any other persistence failure, with its message.
    Other(String),
}

/// Whether `code` is a duplicate-entry violation code.
pub open spec fn spec_is_duplicate_code(code: Seq<char>) -> bool {
    code == "23000"@ || code == "1062"@
}

/// Whether `code` is a foreign-key violation code.
pub open spec fn spec_is_foreign_key_code(code: Seq<char>) -> bool {
    code == "23503"@ || code == "1452"@
}

/// The error code carried by a database rejection, the empty string when the
/// driver reported none.
pub open spec fn spec_db_code(code: Option<String>) -> Seq<char> {
    match code {
        Some(c) => c@,
        None => Seq::<char>::empty(),
    }
}

/// Translates a persistence failure into the taxonomy: duplicate-key codes
/// become conflicts, foreign-key codes become validation failures, a missing
/// row becomes not-found, everything else stays a database error.
pub fn map_db_error(err: DbFailure) -> (r: AppError)
    ensures
        match err {
            DbFailure::Database { code, message } => {
                if spec_is_duplicate_code(spec_db_code(code)) {
                    r matches AppError::ConflictError(m) && m@ == "Duplicate entry violation"@
                } else if spec_is_foreign_key_code(spec_db_code(code)) {
                    r matches AppError::ValidationError(m)
                        && m@ == "Foreign key constraint violation"@
                } else {
                    r == AppError::DatabaseError(message)
                }
            },
            DbFailure::RowNotFound => r matches AppError::NotFoundError(m)
                && m@ == "Resource not found"@,
            DbFailure::Other(message) => r == AppError::DatabaseError(message),
        },
{
    match err {
        DbFailure::Database { code, message } => {
            let c: String = match code {
                Some(c) => c,
                None => String::new(),
            };
            if c == "23000".to_owned() || c == "1062".to_owned() {
                AppError::ConflictError("Duplicate entry violation".to_owned())
            } else if c == "23503".to_owned() || c == "1452".to_owned() {
                AppError::ValidationError("Foreign key constraint violation".to_owned())
            } else {
                AppError::DatabaseError(message)
            }
        },
        DbFailure::RowNotFound => AppError::NotFoundError("Resource not found".to_owned()),
        DbFailure::Other(message) => AppError::DatabaseError(message),
    }
}

} // verus!
