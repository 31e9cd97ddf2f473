//! A verified core for a multi-client line-oriented message relay.
//!
//! The library holds the relay's logic: the command grammars spoken at the
//! byte-stream boundary, the router that owns the identity registry and
//! decides which mailboxes receive which payloads, and the per-connection
//! session state machine. Transport setup, sockets and task scheduling live
//! outside the library and reach it only through plain values.

pub mod identity;
pub mod ids;
pub mod keylist;
pub mod laws;
pub mod line_proto;
pub mod numbers;
pub mod router;
pub mod session;
pub mod shell_proto;
pub mod text;
