//! Networking helpers that sit beside the protocol engines: addresses, the g-dns
//! redirect scheme and ClientHello inspection.
pub mod clienthello;
pub mod gdns;
pub mod ip;
pub mod laws;
