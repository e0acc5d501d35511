//! What can go wrong while a request is served.

use vstd::prelude::*;
use vstd::string::StringExecFns;

verus! {

#[derive(Debug, Clone, Copy, PartialEq, Eq, Structural)]
pub enum ServerError {
    TokenRequestFailed,
    AuthUrlCreationFailed,
    NoGeneratedOauthUrl,
    GenerateOauthUrl,
    NotFound,
    Conflict,
    /// One of the fixed patterns was refused by the pattern compiler.
    Pattern,
    /// A document does not describe one tree.
    Malformed,
    /// The serialiser could not write its output.
    Write,
    /// Serialised markup is not valid UTF-8.
    Encoding,
    /// A text is longer than the parser takes.
    TooLarge,
}

/// The HTTP status that answers an error.
pub open spec fn status_of(error: ServerError) -> u16 {
    match error {
        ServerError::NotFound => 404,
        ServerError::Conflict => 409,
        _ => 500,
    }
}

/// The words that describe an error.
pub open spec fn message_of(error: ServerError) -> Seq<char> {
    match error {
        ServerError::TokenRequestFailed => "token request failed"@,
        ServerError::AuthUrlCreationFailed => "oauth url creation failed"@,
        ServerError::NoGeneratedOauthUrl => "no generated oauth url"@,
        ServerError::GenerateOauthUrl => "failed to generate oauth url"@,
        ServerError::NotFound => "not found"@,
        ServerError::Conflict => "conflict"@,
        ServerError::Pattern => "invalid pattern"@,
        ServerError::Malformed => "malformed document"@,
        ServerError::Write => "serialization failed"@,
        ServerError::Encoding => "invalid encoding"@,
        ServerError::TooLarge => "content too large"@,
    }
}

impl ServerError {
    /// The HTTP status that answers this error: 404 where something was
    /// not found, 409 on a conflict, 500 for everything else.
    pub fn status_code(&self) -> (status: u16)
        ensures
            status == status_of(*self),
    {
        match self {
            ServerError::NotFound => 404,
            ServerError::Conflict => 409,
            _ => 500,
        }
    }

    /// The words that describe this error.
    pub fn message(&self) -> (message: String)
        ensures
            message@ == message_of(*self),
    {
        match self {
            ServerError::TokenRequestFailed => String::from_str("token request failed"),
            ServerError::AuthUrlCreationFailed => String::from_str("oauth url creation failed"),
            ServerError::NoGeneratedOauthUrl => String::from_str("no generated oauth url"),
            ServerError::GenerateOauthUrl => String::from_str("failed to generate oauth url"),
            ServerError::NotFound => String::from_str("not found"),
            ServerError::Conflict => String::from_str("conflict"),
            ServerError::Pattern => String::from_str("invalid pattern"),
            ServerError::Malformed => String::from_str("malformed document"),
            ServerError::Write => String::from_str("serialization failed"),
            ServerError::Encoding => String::from_str("invalid encoding"),
            ServerError::TooLarge => String::from_str("content too large"),
        }
    }
}

} // verus!
