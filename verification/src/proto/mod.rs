//! The sans-I/O HTTP/1.x protocol core: value types plus the connection engine.
//!
//! Nothing in this module performs I/O. The types here describe HTTP messages,
//! and the engine turns a byte stream into requests and serializes responses
//! back into bytes.
pub mod chunk;
pub mod conn;
pub mod conn_laws;
pub mod date;
pub mod fields;
pub mod head;
pub mod headers;
pub mod laws;
pub mod message_laws;
pub mod method;
pub mod request;
pub mod response;
pub mod status;
pub mod version;
