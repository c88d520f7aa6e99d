use vstd::prelude::*;
use crate::access::AccessControl;
use crate::context::stepped;
use crate::message::{RelayMessage, RelayPayload, TransportMessage};

verus! {

/// The out-of-band signal an actor's single-slot control channel carries.
/// Control is kept apart from payload so a stop is never stuck behind a
/// backlog of ordinary messages.
#[derive(Clone, Copy, Debug, PartialEq, Eq, Structural)]
pub enum CtrlSignal {
    /// Stop the actor: run its shutdown capability, acknowledge, exit.
    Stop,
}

/// The lifecycle of one relay: initialization runs once before the first
/// payload is accepted, and once stopped the loop processes nothing more.
#[derive(Clone, Copy, Debug, PartialEq, Eq, Structural)]
pub enum RelayState {
    /// The actor's initialization has not finished yet.
    Initializing,
    /// The loop serves payloads and control signals.
    Running,
    /// The loop has exited; queued payloads are never processed.
    Stopped,
}

/// One thing the relay loop wakes up for: the outcome of initialization, a
/// payload, or a control signal — whichever is ready first.
pub enum RelayEvent {
    InitSucceeded,
    InitFailed,
    Payload(RelayMessage),
    Ctrl(CtrlSignal),
}

/// What the relay does in response to one event.
pub enum RelayAction {
    /// Report readiness: the router commits the registration.
    AckStart,
    /// Report failure: the driver answers the start request with the
    /// error and stops the provisional registration, so no live entry
    /// remains.
    AbortStart,
    /// Hand the message to the actor's handler, its consumed hop stepped.
    Deliver(TransportMessage),
    /// Drop an unauthorized message, without surfacing an error to anyone.
    DropUnauthorized,
    /// Run the actor's shutdown capability, acknowledge to the router, exit.
    AckStopAndExit,
    /// Do nothing.
    Ignore,
}

/// One turn of the relay loop: from the current state and the event that
/// woke it, decide the next state and the action to perform.
///
/// The contract is the loop's whole obligation: a direct payload is
/// delivered exactly when the access-control policy authorizes it and is
/// silently dropped otherwise; a stop signal acknowledges and terminates
/// the loop from any live state; nothing is ever delivered before
/// initialization succeeds or after the loop stopped.
pub fn relay_step<P: AccessControl>(state: RelayState, event: RelayEvent, policy: &P) -> (r: (
    RelayState,
    RelayAction,
))
    ensures
        state is Stopped ==> r.0 is Stopped && r.1 is Ignore,
        (state is Initializing && event is InitSucceeded) ==> r.0 is Running && r.1 is AckStart,
        (state is Initializing && event is InitFailed) ==> r.0 is Stopped && r.1 is AbortStart,
        (state is Initializing && event is Payload) ==> r.0 is Initializing && r.1 is Ignore,
        (!(state is Stopped) && event is Ctrl) ==> r.0 is Stopped && r.1 is AckStopAndExit,
        (state is Running && (event is InitSucceeded || event is InitFailed)) ==> r.0 is Running
            && r.1 is Ignore,
        state is Running ==> (event matches RelayEvent::Payload(m) ==> r.0 is Running && (match m
            .data {
            RelayPayload::Direct(tm) => if policy.allows(&tm) {
                delivers(r.1, tm)
            } else {
                r.1 is DropUnauthorized
            },
            RelayPayload::PreRouter(tm) => delivers(r.1, tm),
        })),
{
    match (state, event) {
        (RelayState::Stopped, _) => (RelayState::Stopped, RelayAction::Ignore),
        (RelayState::Initializing, RelayEvent::InitSucceeded) => (
            RelayState::Running,
            RelayAction::AckStart,
        ),
        (RelayState::Initializing, RelayEvent::InitFailed) => (
            RelayState::Stopped,
            RelayAction::AbortStart,
        ),
        (RelayState::Initializing, RelayEvent::Payload(_)) => (
            RelayState::Initializing,
            RelayAction::Ignore,
        ),
        (RelayState::Initializing, RelayEvent::Ctrl(CtrlSignal::Stop)) => (
            RelayState::Stopped,
            RelayAction::AckStopAndExit,
        ),
        (RelayState::Running, RelayEvent::Ctrl(CtrlSignal::Stop)) => (
            RelayState::Stopped,
            RelayAction::AckStopAndExit,
        ),
        (RelayState::Running, RelayEvent::InitSucceeded) => (
            RelayState::Running,
            RelayAction::Ignore,
        ),
        (RelayState::Running, RelayEvent::InitFailed) => (RelayState::Running, RelayAction::Ignore),
        (RelayState::Running, RelayEvent::Payload(m)) => {
            match m.data {
                RelayPayload::Direct(tm) => {
                    if policy.is_authorized(&tm) {
                        let mut t2 = tm;
                        let _consumed = t2.onward_route.step();
                        (RelayState::Running, RelayAction::Deliver(t2))
                    } else {
                        (RelayState::Running, RelayAction::DropUnauthorized)
                    }
                },
                RelayPayload::PreRouter(tm) => {
                    let mut t2 = tm;
                    let _consumed = t2.onward_route.step();
                    (RelayState::Running, RelayAction::Deliver(t2))
                },
            }
        },
    }
}

/// Whether the action hands the actor exactly this message, its consumed
/// hop stepped off the onward route.
pub open spec fn delivers(a: RelayAction, tm: TransportMessage) -> bool {
    match a {
        RelayAction::Deliver(t) => t.payload == tm.payload && t.return_route@ == tm.return_route@
            && t.onward_route@ == stepped(tm.onward_route@),
        _ => false,
    }
}

} // verus!
