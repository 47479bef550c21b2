//! Peer session protocol for a two-player networked board game.
//!
//! Two peers, a host and a client, exchange moves over a byte stream.
//! This crate holds the protocol core: the wire codec (length-prefixed,
//! direction-tagged envelopes), the stream framing, and the turn-taking
//! session state machine. Transport I/O, rendering and the board rules
//! engine are collaborators outside this crate; the session functions
//! take the bytes that arrived and return the bytes to send.

pub mod wire;
pub mod codec;
pub mod session;
pub mod turns;
