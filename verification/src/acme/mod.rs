//! Automatic certificates (RFC 8555): JSON, request signing, the order flow,
//! and the on-demand certificate manager.
pub mod json;
pub mod json_laws;
pub mod jose;
pub mod client;
pub mod client_laws;
pub mod flow;
pub mod flow_laws;
pub mod manager;
pub mod store;
