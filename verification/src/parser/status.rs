//! HTTP status codes
//! ([RFC 9110 Section 15](https://www.rfc-editor.org/rfc/rfc9110#section-15)).

use vstd::prelude::*;

verus! {

/// HTTP status codes
/// ([RFC 9110 Section 15](https://www.rfc-editor.org/rfc/rfc9110#section-15)).
#[derive(Debug, Clone, Copy, PartialEq, Eq, Structural)]
pub enum Status {
    /// 15.2.1
    Continue,
    /// 15.2.2
    SwitchingProtocols,
    /// 15.3.1 (200 OK)
    Okay,
    /// 15.3.2
    Created,
    /// 15.3.3
    Accepted,
    /// 15.3.4
    NonAuthoritativeInformation,
    /// 15.3.5
    NoContent,
    /// 15.3.6
    ResetContent,
    /// 15.3.7
    PartialContent,
    /// 15.4.1
    MultipleChoices,
    /// 15.4.2
    MovedPermanently,
    /// 15.4.3
    Found,
    /// 15.4.4
    SeeOther,
    /// 15.4.5
    NotModified,
    /// 15.4.6
    UseProxy,
    /// 15.4.8
    TemporaryRedirect,
    /// 15.4.9
    PermanentRedirect,
    /// 15.5.1
    BadRequest,
    /// 15.5.2
    Unauthorized,
    /// 15.5.3
    PaymentRequired,
    /// 15.5.4
    Forbidden,
    /// 15.5.5
    NotFound,
    /// 15.5.6
    MethodNotAllowed,
    /// 15.5.7
    NotAcceptable,
    /// 15.5.8
    ProxyAuthenticationRequired,
    /// 15.5.9
    RequestTimeout,
    /// 15.5.10
    Conflict,
    /// 15.5.11
    Gone,
    /// 15.5.12
    LengthRequired,
    /// 15.5.13
    PreconditionFailed,
    /// 15.5.14
    ContentTooLarge,
    /// 15.5.15
    UriTooLong,
    /// 15.5.16
    UnsupportedMediaType,
    /// 15.5.17
    RangeNotSatisfiable,
    /// 15.5.18
    ExpectationFailed,
    /// 15.5.20
    MisdirectedRequest,
    /// 15.5.21
    UnprocessableContent,
    /// 15.5.22
    UpgradeRequired,
    /// 15.6.1
    InternalServerError,
    /// 15.6.2
    NotImplemented,
    /// 15.6.3
    BadGateway,
    /// 15.6.4
    ServiceUnavailable,
    /// 15.6.5
    GatewayTimeout,
    /// 15.6.6
    HttpVersionNotSupported,
}

/// The three-digit code of a status.
pub open spec fn status_code(s: Status) -> u16 {
    match s {
        Status::Continue => 100,
        Status::SwitchingProtocols => 101,
        Status::Okay => 200,
        Status::Created => 201,
        Status::Accepted => 202,
        Status::NonAuthoritativeInformation => 203,
        Status::NoContent => 204,
        Status::ResetContent => 205,
        Status::PartialContent => 206,
        Status::MultipleChoices => 300,
        Status::MovedPermanently => 301,
        Status::Found => 302,
        Status::SeeOther => 303,
        Status::NotModified => 304,
        Status::UseProxy => 305,
        Status::TemporaryRedirect => 307,
        Status::PermanentRedirect => 308,
        Status::BadRequest => 400,
        Status::Unauthorized => 401,
        Status::PaymentRequired => 402,
        Status::Forbidden => 403,
        Status::NotFound => 404,
        Status::MethodNotAllowed => 405,
        Status::NotAcceptable => 406,
        Status::ProxyAuthenticationRequired => 407,
        Status::RequestTimeout => 408,
        Status::Conflict => 409,
        Status::Gone => 410,
        Status::LengthRequired => 411,
        Status::PreconditionFailed => 412,
        Status::ContentTooLarge => 413,
        Status::UriTooLong => 414,
        Status::UnsupportedMediaType => 415,
        Status::RangeNotSatisfiable => 416,
        Status::ExpectationFailed => 417,
        Status::MisdirectedRequest => 421,
        Status::UnprocessableContent => 422,
        Status::UpgradeRequired => 426,
        Status::InternalServerError => 500,
        Status::NotImplemented => 501,
        Status::BadGateway => 502,
        Status::ServiceUnavailable => 503,
        Status::GatewayTimeout => 504,
        Status::HttpVersionNotSupported => 505,
    }
}

impl Status {
    /// The three-digit code sent on the wire for this status.
    pub fn code(&self) -> (r: u16)
        ensures
            r == status_code(*self),
    {
        match *self {
            Status::Continue => 100,
            Status::SwitchingProtocols => 101,
            Status::Okay => 200,
            Status::Created => 201,
            Status::Accepted => 202,
            Status::NonAuthoritativeInformation => 203,
            Status::NoContent => 204,
            Status::ResetContent => 205,
            Status::PartialContent => 206,
            Status::MultipleChoices => 300,
            Status::MovedPermanently => 301,
            Status::Found => 302,
            Status::SeeOther => 303,
            Status::NotModified => 304,
            Status::UseProxy => 305,
            Status::TemporaryRedirect => 307,
            Status::PermanentRedirect => 308,
            Status::BadRequest => 400,
            Status::Unauthorized => 401,
            Status::PaymentRequired => 402,
            Status::Forbidden => 403,
            Status::NotFound => 404,
            Status::MethodNotAllowed => 405,
            Status::NotAcceptable => 406,
            Status::ProxyAuthenticationRequired => 407,
            Status::RequestTimeout => 408,
            Status::Conflict => 409,
            Status::Gone => 410,
            Status::LengthRequired => 411,
            Status::PreconditionFailed => 412,
            Status::ContentTooLarge => 413,
            Status::UriTooLong => 414,
            Status::UnsupportedMediaType => 415,
            Status::RangeNotSatisfiable => 416,
            Status::ExpectationFailed => 417,
            Status::MisdirectedRequest => 421,
            Status::UnprocessableContent => 422,
            Status::UpgradeRequired => 426,
            Status::InternalServerError => 500,
            Status::NotImplemented => 501,
            Status::BadGateway => 502,
            Status::ServiceUnavailable => 503,
            Status::GatewayTimeout => 504,
            Status::HttpVersionNotSupported => 505,
        }
    }
}

} // verus!
