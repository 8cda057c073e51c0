//! The errors of this crate.
use vstd::prelude::*;

verus! {

/// Errors while preparing or parsing a request.
#[derive(Debug, PartialEq, Eq)]
pub enum RequestError {
    /// The request text could not be parsed.
    Parse { message: String },
    /// The URL could not be turned into a request URI.
    UrlParse { message: String },
    /// The request could not be assembled.
    Prepare { message: String },
}

/// Errors on I/O.
#[derive(Debug, PartialEq, Eq)]
pub enum IoError {
    /// Reading or writing a file failed.
    File { message: String },
    /// Reading a body failed.
    Content { message: String },
}

/// The error type of this crate.
#[derive(Debug, PartialEq, Eq)]
pub enum DeboaError {
    /// A header could not be built or read.
    Header { message: String },
    /// A cookie could not be built or read.
    Cookie { message: String },
    /// A request could not be built or parsed.
    Request(RequestError),
    /// A URL could not be parsed.
    UrlParse { message: String },
    /// An I/O operation failed.
    Io(IoError),
}

/// The result type of this crate.
pub type Result<T> = core::result::Result<T, DeboaError>;

/// A request-parse error with the given message.
pub open spec fn is_parse_error(e: DeboaError, message: Seq<char>) -> bool {
    e matches DeboaError::Request(RequestError::Parse { message: m }) && m@ == message
}

/// A header error with the given message.
pub open spec fn is_header_error(e: DeboaError, message: Seq<char>) -> bool {
    e matches DeboaError::Header { message: m } && m@ == message
}

/// A cookie error with the given message.
pub open spec fn is_cookie_error(e: DeboaError, message: Seq<char>) -> bool {
    e matches DeboaError::Cookie { message: m } && m@ == message
}

} // verus!
