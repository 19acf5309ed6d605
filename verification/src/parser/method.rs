//! Representation of the requested HTTP method.

use vstd::prelude::*;

verus! {

/// The request methods the parser accepts
/// ([IETF RFC 9110 Section 9](https://www.rfc-editor.org/rfc/rfc9110#section-9)).
/// Any other token in method position is a `ParseError::Method`.
#[derive(Debug, PartialEq, Eq, Structural, Clone, Copy)]
pub enum Method {
    /// RFC 9110 9.3.1
    Get,
    /// RFC 9110 9.3.2
    Head,
    /// RFC 9110 9.3.3
    Post,
    /// RFC 9110 9.3.4
    Put,
    /// RFC 9110 9.3.5
    Delete,
    /// RFC 9110 9.3.6
    Connect,
    /// RFC 9110 9.3.7
    Options,
    /// RFC 9110 9.3.8
    Trace,
}

/// The wire bytes of a method token.
pub open spec fn method_bytes(m: Method) -> Seq<u8> {
    match m {
        Method::Get => seq![0x47u8, 0x45, 0x54],
        Method::Head => seq![0x48u8, 0x45, 0x41, 0x44],
        Method::Post => seq![0x50u8, 0x4f, 0x53, 0x54],
        Method::Put => seq![0x50u8, 0x55, 0x54],
        Method::Delete => seq![0x44u8, 0x45, 0x4c, 0x45, 0x54, 0x45],
        Method::Connect => seq![0x43u8, 0x4f, 0x4e, 0x4e, 0x45, 0x43, 0x54],
        Method::Options => seq![0x4fu8, 0x50, 0x54, 0x49, 0x4f, 0x4e, 0x53],
        Method::Trace => seq![0x54u8, 0x52, 0x41, 0x43, 0x45],
    }
}

/// Appends the wire bytes of `m` to `out`.
pub fn push_method_bytes(out: &mut Vec<u8>, m: Method)
    ensures
        final(out)@ == old(out)@ + method_bytes(m),
{
    match m {
        Method::Get => {
            out.push(0x47);
            out.push(0x45);
            out.push(0x54);
        }
        Method::Head => {
            out.push(0x48);
            out.push(0x45);
            out.push(0x41);
            out.push(0x44);
        }
        Method::Post => {
            out.push(0x50);
            out.push(0x4f);
            out.push(0x53);
            out.push(0x54);
        }
        Method::Put => {
            out.push(0x50);
            out.push(0x55);
            out.push(0x54);
        }
        Method::Delete => {
            out.push(0x44);
            out.push(0x45);
            out.push(0x4c);
            out.push(0x45);
            out.push(0x54);
            out.push(0x45);
        }
        Method::Connect => {
            out.push(0x43);
            out.push(0x4f);
            out.push(0x4e);
            out.push(0x4e);
            out.push(0x45);
            out.push(0x43);
            out.push(0x54);
        }
        Method::Options => {
            out.push(0x4f);
            out.push(0x50);
            out.push(0x54);
            out.push(0x49);
            out.push(0x4f);
            out.push(0x4e);
            out.push(0x53);
        }
        Method::Trace => {
            out.push(0x54);
            out.push(0x52);
            out.push(0x41);
            out.push(0x43);
            out.push(0x45);
        }
    }
    proof {
        assert(out@ =~= old(out)@ + method_bytes(m));
    }
}

} // verus!
