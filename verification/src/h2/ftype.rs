//! HTTP/2 frame type codes (RFC 9113 section 6).
use vstd::prelude::*;

verus! {

pub const DATA: u8 = 0x0;

pub const HEADERS: u8 = 0x1;

pub const PRIORITY: u8 = 0x2;

pub const RST_STREAM: u8 = 0x3;

pub const SETTINGS: u8 = 0x4;

pub const PUSH_PROMISE: u8 = 0x5;

pub const PING: u8 = 0x6;

pub const GOAWAY: u8 = 0x7;

pub const WINDOW_UPDATE: u8 = 0x8;

pub const CONTINUATION: u8 = 0x9;

} // verus!
