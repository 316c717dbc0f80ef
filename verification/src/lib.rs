//! Core of an IRC client connection: a per-server state machine that drives
//! the registration handshake (optionally with SASL PLAIN), keeps the session
//! alive with PING/PONG ticks, tracks the session state needed to synthesize
//! outgoing messages (current nick, usermask, auto-join channels, away
//! status), and turns parsed inbound messages into events for the caller.
//!
//! The library is I/O-free: inbound bytes are handed in by the caller, and
//! outbound commands are queued on the live connection state for the caller
//! to serialize and write.

pub mod utils;
pub mod wire;
pub mod conn;
