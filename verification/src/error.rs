//! The coarse error taxonomy surfaced to callers.
//!
//! Any underlying cryptographic or parse failure is collapsed into one of
//! these kinds before it reaches a caller, so that the reason a decryption
//! failed is never revealed.

use vstd::prelude::*;

verus! {

/// An error as reported to the caller of a vault operation.
#[derive(Debug, Clone, Copy, PartialEq, Eq, Structural)]
pub enum Error {
    /// Bad login, an undecryptable envelope, or no active session.
    InvalidCredentials,
    /// Owner mismatch or an account file shorter than its minimum header.
    InvalidDatabase,
    /// Malformed input: unknown entry name or out-of-range parameter.
    InvalidParameter,
    /// An account with this username is already registered.
    UsernameTaken,
    /// Catch-all for internal failures.
    Unexpected,
}

impl Error {
    /// The human-readable description of this error.
    pub fn message(&self) -> (r: &'static str)
        ensures
            r@ == match self {
                Error::InvalidCredentials => "invalid credentials"@,
                Error::InvalidDatabase => "corrupt key database"@,
                Error::InvalidParameter => "invalid parameter"@,
                Error::UsernameTaken => "username already registered"@,
                Error::Unexpected => "unexpected error occurred"@,
            },
    {
        match self {
            Error::InvalidCredentials => "invalid credentials",
            Error::InvalidDatabase => "corrupt key database",
            Error::InvalidParameter => "invalid parameter",
            Error::UsernameTaken => "username already registered",
            Error::Unexpected => "unexpected error occurred",
        }
    }

    /// The stable machine-readable key of this error.
    pub fn key(&self) -> (r: &'static str)
        ensures
            r@ == match self {
                Error::InvalidCredentials => "invalid_credentials"@,
                Error::InvalidDatabase => "invalid_database"@,
                Error::InvalidParameter => "invalid_parameter"@,
                Error::UsernameTaken => "username_taken"@,
                Error::Unexpected => "unexpected"@,
            },
    {
        match self {
            Error::InvalidCredentials => "invalid_credentials",
            Error::InvalidDatabase => "invalid_database",
            Error::InvalidParameter => "invalid_parameter",
            Error::UsernameTaken => "username_taken",
            Error::Unexpected => "unexpected",
        }
    }
}

} // verus!
