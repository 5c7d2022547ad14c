//! # httpsd
//!
//! An HTTP server with a **sans-I/O core** and **pluggable runtimes**. The
//! protocol engines ([`proto::conn::H1Conn`], [`h2::conn::H2Conn`],
//! [`h3::conn::H3Conn`]) perform no I/O at all — they turn bytes into
//! [`Request`]s and serialize [`Response`]s back into bytes. TLS and response
//! compression are independent layers, joined with the engines in a
//! [`Session`]; [`rt`] decides for the runtimes that move bytes over real
//! sockets.
//!
//! Every function states in its contract what it returns or changes, over models
//! that the modules define beside their types.
use vstd::prelude::*;

pub mod acme;
pub mod bytes;
pub mod cli;
pub mod compress;
pub mod config;
pub mod encoding_laws;
pub mod error;
pub mod h2;
pub mod h3;
pub mod handler;
pub mod interop;
pub mod mime;
pub mod net;
pub mod path;
pub mod privdrop;
pub mod proto;
pub mod router;
pub mod rt;
pub mod serve;
pub mod session;
pub mod startup;
pub mod static_files;
pub mod static_laws;
pub mod table;
pub mod text;
pub mod tls;

pub use crate::config::ServerConfig;
pub use crate::error::{Error, Result};
pub use crate::handler::Handler;
pub use crate::proto::conn::{H1Conn, Limits};
pub use crate::proto::headers::Headers;
pub use crate::proto::method::Method;
pub use crate::proto::request::Request;
pub use crate::proto::response::{Body, Response};
pub use crate::proto::status::StatusCode;
pub use crate::proto::version::Version;
pub use crate::router::Router;
pub use crate::rt::{Server, Shutdown};
pub use crate::session::Session;
pub use crate::static_files::StaticFiles;

verus! {

} // verus!
