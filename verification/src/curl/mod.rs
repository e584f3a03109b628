//! Curl command lines: their words, their options and the elements they denote.
//!
//! A command is read in stages, each a function of what the stage before hands it:
//!
//! 1. [`lexer::join_lines`] makes the text one logical line: a backslash directly before
//!    a line feed becomes, with it, one space.
//! 2. [`lexer::tokenize`] cuts the line into tokens at separators outside quotations.
//!    Quotes are taken off, and a backslash inside a quotation makes the next character
//!    part of the token whatever it is. A quotation that is left open is an error.
//! 3. The first token has to be the word `curl`. The tokens after it are the arguments.
//! 4. The first argument that does not begin with a dash is the target, wherever it
//!    stands; [`crate::url::CurlUrl::parse`] splits it into scheme, host, path and query.
//!    A command without such an argument is an error.
//! 5. The other arguments are read in order with the help of an
//!    [`options::OptionTable`]. An argument that an entry of the table recognizes becomes
//!    a method, a header, a piece of data or a flag. Its value is what is attached to
//!    its name in the same token, after `=` or, for a short name, directly; else, if the
//!    option takes a value, the next argument, whatever that holds. An argument that
//!    begins with a dash and that no entry recognizes is a flag under its whole text,
//!    without a value. An argument that does not begin with a dash, and that is neither
//!    the target nor used up as a value, denotes nothing.
//! 6. The elements come in the order of the arguments they were read from, the target
//!    among them.
//!
//! [`parser::parse_curl_command`] runs all stages with the options that
//! [`options::curl_options`] names; [`parser::parse_with_options`] takes a table of the
//! caller's; [`parser::curl_cmd_parse`] reports a failure by its message.
//!
//! What holds of every command is stated and proved in [`laws`].

pub mod error;
pub mod laws;
pub mod lexer;
pub mod options;
pub mod parser;

pub use parser::Curl;
