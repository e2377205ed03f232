//! Core of a DHCPv4 server for a single administered IPv4 subnet.
//!
//! The library holds the verified parts: the wire codec for DHCPv4
//! messages, the durable lease table and its allocation scan, the
//! in-memory transaction registry that guards addresses between OFFER
//! and REQUEST, and the DISCOVER/REQUEST handlers.  Network I/O and
//! configuration loading live outside the library and hand in plain
//! values.

use vstd::prelude::*;

pub mod bytes;
pub mod conf;
pub mod options;
pub mod handler;
pub mod lease;
pub mod protocol;
pub mod store;
pub mod transactions;

verus! {

/// The error kinds a handler or the lease store can report.
///
/// Per-packet errors never escape the handler task: the caller logs
/// and drops the packet, except that a REQUEST that finds no free
/// address is answered with a NAK.
#[derive(Clone, Copy, Debug, PartialEq, Eq, Structural)]
pub enum DhcpError {
    /// The datagram is not a well-formed DHCPv4 message.
    MalformedMessage,
    /// The message type is neither DISCOVER nor REQUEST.
    UnsupportedMessageType,
    /// The dynamic range holds no assignable address.
    NoFreeAddress,
    /// A lookup found no (decodable) record.
    NotFound,
    /// The underlying key-value store reported a fault.
    Store,
    /// A reply path this server does not implement (relay or unicast).
    Unsupported,
}

} // verus!
