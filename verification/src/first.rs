//! Session buffering.

pub mod buffer;
