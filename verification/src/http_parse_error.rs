//! The ways in which reading a request can fail.

use vstd::prelude::*;
use vstd::string::*;

verus! {

/// Why a request could not be parsed.
#[derive(Debug, Clone)]
pub enum HttpParseError {
    /// The request line is missing, is too short, or names an unknown version.
    ParseError,
    /// A fault that the `http` crate found, with its message.
    OtherError(String),
}

/// What an `HttpParseError` holds, as mathematical values.
pub enum ParseFailure {
    ParseError,
    OtherError(Seq<char>),
}

impl View for HttpParseError {
    type V = ParseFailure;

    open spec fn view(&self) -> ParseFailure {
        match self {
            HttpParseError::ParseError => ParseFailure::ParseError,
            HttpParseError::OtherError(text) => ParseFailure::OtherError(text@),
        }
    }
}

/// The text shown for a failure: `Error: ` and what went wrong.
pub open spec fn failure_message(failure: ParseFailure) -> Seq<char> {
    match failure {
        ParseFailure::ParseError => "Error: "@ + "Error parsing http packet!"@,
        ParseFailure::OtherError(text) => "Error: "@ + text,
    }
}

impl HttpParseError {
    /// The text shown for this error: `Error: ` and what went wrong.
    pub fn message(&self) -> (text: String)
        ensures
            text@ == failure_message(self@),
    {
        let mut text = String::from_str("Error: ");
        match self {
            HttpParseError::ParseError => text.append("Error parsing http packet!"),
            HttpParseError::OtherError(detail) => text.append(detail.as_str()),
        }
        text
    }
}

} // verus!
