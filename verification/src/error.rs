//! The error taxonomy of the library.
use vstd::prelude::*;
use vstd::string::*;

verus! {

/// Why an operation failed.
///
/// `Validation` covers inputs rejected before any side effect, `NotFound`
/// operations on unknown identifiers, `Download` subprocess spawn failures and
/// nonzero exits, `Cancelled` a user-initiated stop (never recorded as an
/// error status), `Network` fetch failures, `Parse` malformed subprocess or
/// feed output, and `Store` persistence failures.
#[derive(Debug, PartialEq, Eq)]
pub enum AppError {
    Validation(String),
    NotFound(String),
    Download(String),
    Cancelled,
    Network(String),
    Parse(String),
    Store(String),
}

impl AppError {
    /// Whether this error is the distinguished cancellation outcome.
    pub fn is_cancelled(&self) -> (r: bool)
        ensures
            r == (self is Cancelled),
    {
        match self {
            AppError::Cancelled => true,
            _ => false,
        }
    }

    /// A human-readable description; every terminal failure carries one.
    pub fn message(&self) -> (r: String)
        ensures
            r@.len() > 0,
    {
        let (prefix, detail): (&str, &str) = match self {
            AppError::Validation(d) => ("invalid input: ", d.as_str()),
            AppError::NotFound(d) => ("not found: ", d.as_str()),
            AppError::Download(d) => ("download error: ", d.as_str()),
            AppError::Cancelled => ("cancelled", ""),
            AppError::Network(d) => ("network error: ", d.as_str()),
            AppError::Parse(d) => ("parse error: ", d.as_str()),
            AppError::Store(d) => ("store error: ", d.as_str()),
        };
        proof {
            reveal_strlit("invalid input: ");
            reveal_strlit("not found: ");
            reveal_strlit("download error: ");
            reveal_strlit("cancelled");
            reveal_strlit("network error: ");
            reveal_strlit("parse error: ");
            reveal_strlit("store error: ");
        }
        let mut out = String::from_str(prefix);
        out.append(detail);
        out
    }
}

/// The usual result type of the library's fallible operations.
pub type AppResult<T> = Result<T, AppError>;

} // verus!
