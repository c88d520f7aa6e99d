use vstd::prelude::*;

verus! {

/// Every failure the routing fabric can surface to a caller.
///
/// Registry-level errors are returned synchronously to the caller that issued
/// the request.  Access-control denials are recovered locally (the message is
/// dropped) and decode mismatches trigger a requeue, so neither appears here
/// as a delivery failure.
#[derive(Clone, Copy, Debug, PartialEq, Eq, Structural)]
pub enum Error {
    /// A batch registration collided with a live address; nothing was inserted.
    AddressInUse,
    /// Address resolution failed: the address is not registered and no
    /// protocol router covers its transport type.
    AddressUnknown,
    /// A stop, readiness or cluster request named an address that is not live.
    NotFound,
    /// A second protocol router was registered for the same transport type.
    AlreadyRegistered,
    /// A cluster name collided with the reserved internal namespace.
    ReservedName,
    /// A bounded wait elapsed without the awaited event.
    Timeout,
    /// A payload did not decode as the requested message type.
    DecodeError,
    /// The destination mailbox is closed: the actor is already gone.
    MailboxClosed,
    /// The node is shutting down and accepts no new start requests.
    NodeShuttingDown,
    /// A malformed argument: an empty address batch, or a sending address the
    /// context does not own.
    InvalidAddress,
    /// A protocol router could not resolve a peer and auto-connection was
    /// disabled or the route was empty.
    UnknownRoute,
    /// A peer registration collided with an existing connection mapping.
    AlreadyConnected,
    /// A disconnect named a peer with no connection mapping.
    PeerNotFound,
}

} // verus!
