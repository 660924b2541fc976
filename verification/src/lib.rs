//! A TLS-terminating HTTP CONNECT proxy library.
//!
//! The protocol logic lives here, fully verified: bounded header
//! accumulation, CONNECT request parsing, Basic-credential checking,
//! upstream proxy address resolution, and the per-connection state
//! machine.  The I/O shell (sockets, TLS, environment, logging) is a
//! thin separate program built on top of these functions.

pub mod scan;
pub mod auth;
pub mod request;
pub mod session;
pub mod upstream;
