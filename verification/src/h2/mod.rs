//! HTTP/2 (RFC 9113): framing and the server connection engine.
pub mod conn;
pub mod control_laws;
pub mod errcode;
pub mod flag;
pub mod frame;
pub mod ftype;
pub mod hpack;
pub mod laws;
pub mod model;
pub mod request_laws;
pub mod response_laws;
pub mod settings;
