//! Core of a peer-to-peer rendezvous and port-forwarding system.
//!
//! Two endpoints that share a one-time code establish a session through an
//! untrusted broker and multiplex TCP streams over an authenticated transit
//! channel.  This crate holds the verified core: the rendezvous client state
//! machine, the peer message codec, and the forwarding session state machines
//! for both roles.  The surrounding I/O (websockets, TCP, the transit channel
//! itself) is driven by ordinary code that feeds events into these machines
//! and performs the actions they emit.

pub mod error;
pub mod idset;
pub mod listen;
pub mod msgpack;
pub mod peermsg;
pub mod rendezvous;
pub mod serve;
pub mod session;
pub mod setup;
pub mod strutil;
pub mod target;
