//! Representation of the requested HTTP version.

use vstd::prelude::*;

verus! {

/// The protocol versions the parser accepts in the request line.
#[derive(Debug, PartialEq, Eq, Structural, Clone, Copy)]
pub enum Version {
    /// HTTP/1.0
    H1_0,
    /// HTTP/1.1
    H1_1,
    /// HTTP/2
    H2,
    /// HTTP/3
    H3,
}

/// The wire bytes of a version literal.
pub open spec fn version_bytes(v: Version) -> Seq<u8> {
    match v {
        Version::H1_0 => seq![0x48u8, 0x54, 0x54, 0x50, 0x2f, 0x31, 0x2e, 0x30],
        Version::H1_1 => seq![0x48u8, 0x54, 0x54, 0x50, 0x2f, 0x31, 0x2e, 0x31],
        Version::H2 => seq![0x48u8, 0x54, 0x54, 0x50, 0x2f, 0x32],
        Version::H3 => seq![0x48u8, 0x54, 0x54, 0x50, 0x2f, 0x33],
    }
}

/// Appends the wire bytes of `v` to `out`.
pub fn push_version_bytes(out: &mut Vec<u8>, v: Version)
    ensures
        final(out)@ == old(out)@ + version_bytes(v),
{
    out.push(0x48);
    out.push(0x54);
    out.push(0x54);
    out.push(0x50);
    out.push(0x2f);
    match v {
        Version::H1_0 => {
            out.push(0x31);
            out.push(0x2e);
            out.push(0x30);
        }
        Version::H1_1 => {
            out.push(0x31);
            out.push(0x2e);
            out.push(0x31);
        }
        Version::H2 => {
            out.push(0x32);
        }
        Version::H3 => {
            out.push(0x33);
        }
    }
    proof {
        assert(out@ =~= old(out)@ + version_bytes(v));
    }
}

} // verus!
