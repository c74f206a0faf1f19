//! Cluster membership and messaging substrate for peers on a local network.
//!
//! A node joins an implicit cluster over IP multicast, tracks the set of
//! live peers with a SWIM-style failure detector, exchanges point-to-point
//! messages with request/response correlation, and disseminates opaque
//! payloads cluster-wide via epidemic gossip.  This crate holds the verified
//! core: the data model, the wire codec, the membership set, the gossip
//! buffers, the message dispatcher and the response table.  Sockets, threads
//! and timers live outside the crate and drive this core through its
//! decision functions.

pub mod codec;
pub mod common;
pub mod config;
pub mod discovery;
pub mod dispatch;
pub mod events;
pub mod gossip;
pub mod ipv4;
pub mod membership;
pub mod random;
