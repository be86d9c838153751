//! Peer discovery over IPv4 multicast: a sender role periodically announces a
//! service's reachable address as a small JSON record on a multicast group,
//! and a listener role receives and decodes such records.
//!
//! This crate holds the verified core: interface addressing, the wire-record
//! codec, the socket setup plans for both roles, the bind coordinator that
//! serializes listener setup, the per-interface task fan-out outcome, and the
//! announcer/listener loop state machines. The surrounding process (argument
//! parsing, the OS interface enumeration, and the actual socket operations)
//! drives these functions from outside.

pub mod addr;
pub mod binding;
pub mod coordinator;
pub mod fanout;
pub mod loops;
pub mod wire;
