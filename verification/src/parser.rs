//! Parser implementations for HTTP.

use vstd::prelude::*;

pub mod h1;
pub mod h2;
pub mod method;
pub mod raw_request;
pub mod status;
pub mod version;

pub use method::Method;
pub use version::Version;

verus! {

/// Marker trait for the parser implementations of this crate.
pub trait Parser {}

/// Represents possible failures while parsing.
///
/// Every error is terminal for the current request: the driver attempts no
/// local recovery, and the caller typically answers with a 400-class
/// response and closes the connection.
#[derive(Debug, PartialEq, Eq, Structural, Clone, Copy)]
pub enum ParseError {
    /// Invalid byte in method.
    Method,
    /// Invalid byte in target.
    Target,
    /// Invalid HTTP version.
    Version,
    /// Invalid byte in header name.
    HeaderName,
    /// Invalid byte in header value.
    HeaderValue,
    /// Invalid or missing new line.
    NewLine,
    /// More headers than the caller supplied storage for.
    Capacity,
}

impl ParseError {
    /// A short description of the error, suitable for a log line.
    pub fn description_str(&self) -> (r: &'static str)
        ensures
            r@ == (match *self {
                ParseError::Method => "Invalid token in method"@,
                ParseError::Target => "Invalid token in target"@,
                ParseError::Version => "Invalid version"@,
                ParseError::HeaderName => "Invalid token in header name"@,
                ParseError::HeaderValue => "Invalid token in header value"@,
                ParseError::NewLine => "Invalid or missing new line"@,
                ParseError::Capacity => "Too many headers"@,
            }),
    {
        match *self {
            ParseError::Method => "Invalid token in method",
            ParseError::Target => "Invalid token in target",
            ParseError::Version => "Invalid version",
            ParseError::HeaderName => "Invalid token in header name",
            ParseError::HeaderValue => "Invalid token in header value",
            ParseError::NewLine => "Invalid or missing new line",
            ParseError::Capacity => "Too many headers",
        }
    }
}

/// Status of a parse operation. Determines if the operation completed, or
/// reached the end of the buffer.
#[derive(Debug, PartialEq, Eq, Structural, Clone, Copy)]
pub enum Status<T> {
    /// The parse operation completed.
    Complete(T),
    /// The parse operation encountered the end of the buffer.
    Partial,
}

/// Result whose Err variant is `ParseError`.
pub type ParseResult<T> = Result<Status<T>, ParseError>;

} // verus!
