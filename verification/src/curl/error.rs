//! The ways in which a command can fail to parse.

use vstd::prelude::*;
use vstd::string::StringExecFns;

verus! {

/// Why a command was rejected.
#[derive(Debug, Clone, Copy, PartialEq, Eq, Structural)]
pub enum CurlError {
    /// The first word of the command is not `curl`, or the command has no word at all.
    NotCurl,
    /// A quotation opened with `'` or `"` is not closed before the text ends.
    UnterminatedQuote,
    /// No argument of the command can be its target: each begins with `-`, or there is none.
    MissingUrl,
    /// An option that takes a value stands last, with nothing attached to it.
    MissingValue,
}

impl CurlError {
    /// The message that reports this error.
    pub open spec fn text(self) -> Seq<char> {
        match self {
            CurlError::NotCurl => "command does not start with curl"@,
            CurlError::UnterminatedQuote => "unterminated quote in command"@,
            CurlError::MissingUrl => "command is missing a URL"@,
            CurlError::MissingValue => "option is missing its value"@,
        }
    }

    /// The message that reports this error.
    pub fn message(&self) -> (s: String)
        ensures
            s@ == self.text(),
    {
        match self {
            CurlError::NotCurl => String::from_str("command does not start with curl"),
            CurlError::UnterminatedQuote => String::from_str("unterminated quote in command"),
            CurlError::MissingUrl => String::from_str("command is missing a URL"),
            CurlError::MissingValue => String::from_str("option is missing its value"),
        }
    }
}

} // verus!
