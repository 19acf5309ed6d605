//! Connection-level protocol state.
//!
//! Socket handling, TLS termination and event loops live with the
//! embedding application; the library only models which protocol version
//! a connection has settled on, and carries the request being parsed for
//! an HTTP/1.1 connection.

use vstd::prelude::*;

use crate::parser::h1::request::H1Request;

verus! {

/// The protocol version a connection speaks.
#[derive(Debug)]
pub enum ConnectionVersion {
    /// An HTTP/1.1 connection, with the request accumulated so far.
    Http11(H1Request),
    /// An HTTP/2 connection.
    H2,
    /// An HTTP/3 connection.
    H3,
}

} // verus!
