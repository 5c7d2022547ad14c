//! HTTP/2 error codes (RFC 9113 section 7).
use vstd::prelude::*;

verus! {

pub const NO_ERROR: u32 = 0x0;

pub const PROTOCOL_ERROR: u32 = 0x1;

pub const INTERNAL_ERROR: u32 = 0x2;

pub const FLOW_CONTROL_ERROR: u32 = 0x3;

pub const SETTINGS_TIMEOUT: u32 = 0x4;

pub const FRAME_SIZE_ERROR: u32 = 0x6;

pub const REFUSED_STREAM: u32 = 0x7;

pub const COMPRESSION_ERROR: u32 = 0x9;

pub const ENHANCE_YOUR_CALM: u32 = 0xb;

} // verus!
