use vstd::prelude::*;
use crate::address::Address;
use crate::route::Route;
use crate::tcp_router::{TcpRouterRequest, TcpRouterResponse};

verus! {

/// A message payload.
///
/// Payload encoding is an outside capability: the running system carries
/// opaque bytes plus the metadata its decode capability checks.  The model
/// carries that pair directly — a `User` payload is the body bytes together
/// with the type tag a typed receive matches against — and carries the
/// protocol-router control messages as structured values in place of their
/// encoded form.
#[verifier::ext_equal]
pub enum Payload {
    /// An ordinary user payload: a message type tag and the body bytes.
    User { mtype: u32, body: Vec<u8> },
    /// A management request for a TCP protocol router's API address.
    TcpRequest(TcpRouterRequest),
    /// A TCP protocol router's reply to a management request.
    TcpResponse(TcpRouterResponse),
}

/// A transport message: the payload together with the route it still has to
/// travel (`onward_route`) and the route a reply would travel back
/// (`return_route`).
#[verifier::ext_equal]
pub struct TransportMessage {
    /// Remaining hops to the destination.
    pub onward_route: Route,
    /// Hops a reply travels, most recent sender first.
    pub return_route: Route,
    /// The payload.
    pub payload: Payload,
}

impl TransportMessage {
    /// Pack a payload with its onward and return routes.
    pub fn new(onward_route: Route, return_route: Route, payload: Payload) -> (r:
        TransportMessage)
        ensures
            r == (TransportMessage { onward_route, return_route, payload }),
    {
        TransportMessage { onward_route, return_route, payload }
    }
}

/// How an envelope may be consumed by the mailbox it was delivered to.
///
/// The tag is decided by the router at resolution time: a destination that was
/// resolved directly takes the message as-is, while one reached through a
/// protocol router needs that router to re-address the message first.
#[verifier::ext_equal]
pub enum RelayPayload {
    /// Deliverable as-is to the destination actor.
    Direct(TransportMessage),
    /// Must be re-addressed by the protocol router it was handed to before
    /// the final destination can consume it.
    PreRouter(TransportMessage),
}

/// The envelope a mailbox holds: the registered address the message was
/// resolved to, and the transport message tagged with its consumption mode.
#[verifier::ext_equal]
pub struct RelayMessage {
    /// The registered address the resolution step picked.
    pub addr: Address,
    /// The transport message, tagged direct or needs-wrapping.
    pub data: RelayPayload,
}

impl RelayMessage {
    /// An envelope deliverable as-is.
    pub fn direct(addr: Address, msg: TransportMessage) -> (r: RelayMessage)
        ensures
            r == (RelayMessage { addr, data: RelayPayload::Direct(msg) }),
    {
        RelayMessage { addr, data: RelayPayload::Direct(msg) }
    }

    /// An envelope that a protocol router must re-address.
    pub fn pre_router(addr: Address, msg: TransportMessage) -> (r: RelayMessage)
        ensures
            r == (RelayMessage { addr, data: RelayPayload::PreRouter(msg) }),
    {
        RelayMessage { addr, data: RelayPayload::PreRouter(msg) }
    }
}

/// A message as an actor receives it: the address it was delivered to and the
/// transport message, whose onward route has been stepped past that address.
#[verifier::ext_equal]
pub struct Routed {
    /// The destination address the message was consumed at.
    pub msg_addr: Address,
    /// The transport message; `onward_route` holds the hops beyond this one.
    pub transport: TransportMessage,
}

} // verus!
