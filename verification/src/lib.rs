//! A minimal peer-membership and gossip protocol over datagrams.
//!
//! The crate holds the protocol's decisions: the wire codec, the membership
//! set, the reaction to each inbound datagram, the join sequence and the
//! broadcast cadence. Sockets, clocks and threads belong to the caller, which
//! performs the sends and receives that these functions ask for and reports
//! their outcome back.
use vstd::prelude::*;

pub mod gossiper;
pub mod listener;
pub mod membership;
pub mod node_init;
pub mod protocol;
pub mod text;

verus! {

/// Size in bytes of the buffer that one datagram is received into.
pub const BUFFER_SIZE: usize = 1024;

} // verus!
