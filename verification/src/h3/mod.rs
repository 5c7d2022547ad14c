//! HTTP/3 (RFC 9114): framing and the per-connection request state.
pub mod conn;
pub mod drive;
pub mod frame;
pub mod qpack;
pub mod laws;
pub mod transport;
