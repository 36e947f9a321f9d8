//! The error taxonomy of a parse call. A parse returns exactly one success
//! or one of these; a password problem is kept distinguishable from a
//! generic failure so a caller can re-prompt.
use vstd::prelude::*;

verus! {

/// Why a parse call failed.
#[derive(Debug)]
pub enum ParseError {
    /// The file is missing, unreadable, or its container is corrupt.
    OpenFailure(String),
    /// The markup, XML or archive structure is malformed.
    FormatInvalid(String),
    /// The content is encrypted and the password is missing or wrong.
    PasswordRequired(String),
    /// No extractor claims the requested extension.
    UnsupportedExtension(String),
    /// The source is empty or otherwise vacuous.
    EmptyInput(String),
}

pub open spec fn error_message_spec(e: &ParseError) -> Seq<char> {
    match e {
        ParseError::OpenFailure(m) => m@,
        ParseError::FormatInvalid(m) => m@,
        ParseError::PasswordRequired(m) => m@,
        ParseError::UnsupportedExtension(m) => m@,
        ParseError::EmptyInput(m) => m@,
    }
}

impl ParseError {
    /// The human-readable message the error carries.
    pub fn message(&self) -> (r: String)
        ensures
            r@ == error_message_spec(self),
    {
        match self {
            ParseError::OpenFailure(m) => m.clone(),
            ParseError::FormatInvalid(m) => m.clone(),
            ParseError::PasswordRequired(m) => m.clone(),
            ParseError::UnsupportedExtension(m) => m.clone(),
            ParseError::EmptyInput(m) => m.clone(),
        }
    }
}

} // verus!
