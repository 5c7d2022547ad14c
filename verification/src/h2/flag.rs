//! HTTP/2 frame flag bits (their meaning depends on the frame type).
use vstd::prelude::*;

verus! {

/// SETTINGS, PING.
pub const ACK: u8 = 0x1;

/// DATA, HEADERS.
pub const END_STREAM: u8 = 0x1;

/// HEADERS, CONTINUATION, PUSH_PROMISE.
pub const END_HEADERS: u8 = 0x4;

/// DATA, HEADERS, PUSH_PROMISE.
pub const PADDED: u8 = 0x8;

/// HEADERS.
pub const PRIORITY: u8 = 0x20;

} // verus!
