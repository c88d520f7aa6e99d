use vstd::prelude::*;
use crate::message::{Payload, TransportMessage};

verus! {

/// An access-control policy: the capability a relay consults once per inbound
/// direct payload, before the message is handed to the actor.
///
/// The set of policies is open-ended and chosen per start call; implementers
/// state what they allow in `allows` and the executable check must agree with
/// it.
pub trait AccessControl: Sized {
    /// What the policy allows.
    spec fn allows(&self, msg: &TransportMessage) -> bool;

    /// Decide whether the message may be delivered to the actor.
    fn is_authorized(&self, msg: &TransportMessage) -> (r: bool)
        ensures
            r == self.allows(msg),
    ;
}

/// The permissive default policy: every message is delivered.
pub struct AllowAll;

impl AccessControl for AllowAll {
    open spec fn allows(&self, msg: &TransportMessage) -> bool {
        true
    }

    fn is_authorized(&self, msg: &TransportMessage) -> (r: bool)
        ensures
            r == self.allows(msg),
    {
        true
    }
}

/// The prohibitive policy: every message is dropped.
pub struct DenyAll;

impl AccessControl for DenyAll {
    open spec fn allows(&self, msg: &TransportMessage) -> bool {
        false
    }

    fn is_authorized(&self, msg: &TransportMessage) -> (r: bool)
        ensures
            r == self.allows(msg),
    {
        false
    }
}

/// A policy that admits only user payloads of one message type.
pub struct AllowType {
    /// The admitted message type tag.
    pub mtype: u32,
}

impl AccessControl for AllowType {
    open spec fn allows(&self, msg: &TransportMessage) -> bool {
        match msg.payload {
            Payload::User { mtype, .. } => mtype == self.mtype,
            _ => false,
        }
    }

    fn is_authorized(&self, msg: &TransportMessage) -> (r: bool)
        ensures
            r == self.allows(msg),
    {
        match &msg.payload {
            Payload::User { mtype, .. } => *mtype == self.mtype,
            _ => false,
        }
    }
}

} // verus!
