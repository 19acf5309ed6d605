//! An incremental HTTP/1.1 request-line and header parser.
//!
//! The crate parses a raw byte buffer received from a client connection into
//! a method, a request-target, a protocol version and a bounded sequence of
//! header fields, following the grammar of RFC 9112.  A parse attempt either
//! completes, reports that more bytes are needed, or fails with an error that
//! names the offending component.  All parsed fields are byte ranges into the
//! caller's buffer; the parser copies nothing and never reads past the end of
//! its input.

pub mod connection;
pub mod first;
pub mod parser;
