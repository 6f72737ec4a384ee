//! Portguard: an authenticated TCP tunnel whose clients carry their keys and
//! configuration inside their own executable.
//!
//! This crate holds the rules of the system as functions on plain values:
//! the embedded configuration codec, the patching of a client image, the
//! server's authorization and policy decisions and the reverse-proxy
//! registry. Sockets, files and the terminal are left to the program built
//! around it.

pub mod addr;
pub mod client;
pub mod codec;
pub mod consts;
pub mod gen;
pub mod keys;
pub mod proxy;
pub mod record;
pub mod registry;
pub mod remote;
pub mod server;
pub mod text;

pub use remote::Remote;
