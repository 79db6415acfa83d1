//! Core of a small RPC framework over a multiplexed, stream-oriented
//! transport.  Peers form sessions keyed by remote address; each session
//! carries many independent request/response streams.  Every stream starts
//! with a negotiation record that selects a service by name, then switches to
//! length-delimited MessagePack frames carrying correlated messages.
//!
//! This crate holds the verified core: the wire codecs, the negotiation
//! handshake, the client-side correlation engine, the peer registries and the
//! service derivation shape.  The asynchronous transport around it performs
//! I/O and feeds events to these functions.

pub mod base;
pub mod framed;
pub mod model;
pub mod negotiator;
pub mod rpc;
pub mod rpc_service;
pub mod session;
pub mod text;
pub mod wire;
