//! Response model.

use vstd::prelude::*;

use crate::parser::h1::request::Header;
use crate::parser::status::Status;
use crate::parser::status::status_code;
use crate::parser::version::Version;

verus! {

/// An HTTP/1.1 response under construction: a status line and, later,
/// headers and a body.
#[derive(Debug)]
pub struct Response {
    version: Version,
    status: Status,
    headers: Option<Vec<Header>>,
    body: String,
}

impl Response {
    /// The version of the status line.
    pub closed spec fn spec_version(&self) -> Version {
        self.version
    }

    /// The status of the status line.
    pub closed spec fn spec_status(&self) -> Status {
        self.status
    }

    /// Creates a response carrying only a status line, with no headers
    /// and an empty body.
    pub fn new_with_status_line(version: Version, status: Status) -> (r: Self)
        ensures
            r.spec_version() == version,
            r.spec_status() == status,
    {
        Response { version, status, headers: None, body: String::new() }
    }

    /// The serialized response bytes.  Serialization is not implemented
    /// beyond a fixed no-content answer; the status line always reports
    /// HTTP/1.1 and code 204.
    pub fn get_serialized(&self) -> (r: &'static str)
        ensures
            r@ == ("HTTP/1.1 204\r\nServer: rask/0.0.1\r\nConnection: keep-alive\r\n\r\n")@,
    {
        "HTTP/1.1 204\r\nServer: rask/0.0.1\r\nConnection: keep-alive\r\n\r\n"
    }
}

} // verus!
