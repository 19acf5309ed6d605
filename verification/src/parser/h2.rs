//! HTTP/2 frame model.

use vstd::prelude::*;

verus! {

/// An HTTP/2 frame header.  Frame parsing itself is not implemented;
/// the type records the fields a parsed frame carries.
#[derive(Debug, Clone, Copy)]
pub struct Frame {
    /// Payload length; 24 bits only — the default maximum is 2^14.
    pub length: u32,
    /// The frame type.
    pub frame_type: u8,
    /// Frame flags.
    pub flags: u8,
    /// Stream identifier; 31 bits only.
    pub stream_id: u32,
}

} // verus!
