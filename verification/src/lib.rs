//! Core of a single-reactor TCP connection multiplexer.
//!
//! The library holds the logic of the server: how requests are framed and
//! classified, how connection identities (tokens) are issued, what the
//! registry and the readiness registrations must agree on, how the reactor
//! reacts to readable and writable events, how requests are handed to an
//! external processor and responses travel back, and when everything shuts
//! down.  All I/O (sockets, polling, threads) lives outside, in a thin shell
//! that feeds observed events into these functions and carries their
//! decisions out.

pub mod client;
pub mod conn;
pub mod handoff;
pub mod hints;
pub mod laws;
pub mod reactor;
pub mod readiness;
pub mod registry;
pub mod request;
pub mod serializer;
pub mod waiter;
