//! Plain data carried through the transport: messages and error taxonomy.

use vstd::prelude::*;

verus! {

/// One unit of consensus traffic. The transport reads only the destination
/// store id; the payload is opaque to this layer.
pub struct RaftMessage {
    /// Identifier of the store this message must be delivered to.
    pub to_store: u64,
    /// Opaque payload bytes; never inspected by the transport.
    pub payload: Vec<u8>,
}

/// Why the resolver could not produce an address for a store.
#[derive(Debug)]
pub enum ResolveError {
    /// The store id is unknown to the metadata service.
    StoreNotFound,
    /// The lookup did not complete in time.
    Timeout,
    /// The lookup's own transport failed.
    LookupFailed,
}

/// Why `send` could not accept a message.
#[derive(Debug)]
pub enum TransportError {
    /// Address resolution failed before any connection work was attempted.
    Resolve(ResolveError),
    /// The store's connection was broken and the one allowed re-resolution
    /// failed, so the peer is given up on for this message.
    Unreachable,
}

/// Router-facing error produced by the transport facade.
#[derive(Debug)]
pub enum RouterError {
    /// The underlying transport rejected the message.
    Transport(TransportError),
}

/// Why transmitting a batch over a connection failed.
#[derive(Debug)]
pub enum TransmitError {
    /// The remote end reset the connection.
    ConnectionReset,
    /// Writing to the connection failed.
    WriteFailed,
}

} // verus!
