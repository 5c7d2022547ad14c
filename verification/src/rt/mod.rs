//! What the runtime drivers decide: the glue that moves bytes between real
//! sockets and the sans-I/O [`Session`](crate::session::Session).
//!
//! All drivers share the same [`Server`] builder and the same protocol core;
//! they differ only in how they wait for and perform socket I/O. Nothing here
//! performs any: each piece is told what happened and says what to do.
//!
//! Times are nanoseconds of a monotonic clock, unless a name says otherwise.
pub mod accept;
pub mod blocking;
pub mod event;
pub mod peers;
pub mod progress;
pub mod quic;
pub mod redirect;
pub mod route;
pub mod server;
pub mod shutdown;

pub use self::server::Server;
pub use self::shutdown::Shutdown;
