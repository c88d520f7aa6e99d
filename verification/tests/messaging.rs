use ockam_node::access::{AllowAll, DenyAll};
use ockam_node::address::Address;
use ockam_node::context::{Context, MatchEquals, MatchNone};
use ockam_node::error::Error;
use ockam_node::message::{Payload, RelayMessage, RelayPayload, TransportMessage};
use ockam_node::node::Node;
use ockam_node::relay::{relay_step, CtrlSignal, RelayAction, RelayEvent, RelayState};
use ockam_node::route::Route;

fn root() -> Context<AllowAll> {
    Context::new(vec![Address::local(b"app".to_vec())], 0, AllowAll)
}

fn local(s: &[u8]) -> Address {
    Address::local(s.to_vec())
}

fn user(mtype: u32, body: &[u8]) -> Payload {
    Payload::User {
        mtype,
        body: body.to_vec(),
    }
}

fn body_of(p: &Payload) -> Vec<u8> {
    match p {
        Payload::User { body, .. } => body.clone(),
        _ => panic!("not a user payload"),
    }
}

#[test]
fn start_send_receive_stop_scenario() {
    let mut node = Node::new();
    let ctx = root();
    let w = ctx.start_worker(&mut node, vec![local(b"w1")]).unwrap();

    // Send M1 to "w1".
    let route = Route::single(local(b"w1"));
    ctx.send(&mut node, route, user(7, b"M1")).unwrap();

    // W's mailbox yields M1, with a return route holding the sender.
    let rt = w.receive(&mut node, 7).unwrap();
    assert_eq!(body_of(&rt.transport.payload), b"M1".to_vec());
    assert_eq!(rt.transport.return_route.hops.len(), 1);
    assert!(rt.transport.return_route.hops[0].addr_eq(&local(b"app")));
    // The single-hop route was fully consumed by delivery.
    assert_eq!(rt.transport.onward_route.hops.len(), 0);

    // Stop W; sending M2 to "w1" now fails with AddressUnknown.
    ctx.stop_worker(&mut node, &local(b"w1")).unwrap();
    let r = ctx.send(&mut node, Route::single(local(b"w1")), user(7, b"M2"));
    assert_eq!(r.err(), Some(Error::AddressUnknown));
}

#[test]
fn send_to_unknown_address_fails() {
    let mut node = Node::new();
    let ctx = root();
    let r = ctx.send(&mut node, Route::single(local(b"ghost")), user(1, b"x"));
    assert_eq!(r.err(), Some(Error::AddressUnknown));
}

#[test]
fn send_from_foreign_address_is_rejected() {
    let mut node = Node::new();
    let ctx = root();
    ctx.start_worker(&mut node, vec![local(b"w")]).unwrap();
    let r = ctx.send_from_address(
        &mut node,
        Route::single(local(b"w")),
        user(1, b"x"),
        local(b"somebody-else"),
    );
    assert_eq!(r.err(), Some(Error::InvalidAddress));
}

#[test]
fn send_to_self_checks_ownership() {
    let mut node = Node::new();
    let ctx = root();
    let w = ctx
        .start_worker(&mut node, vec![local(b"w"), local(b"w-alias")])
        .unwrap();
    let r = w.send_to_self(&mut node, &local(b"w"), &local(b"foreign"), user(1, b"x"));
    assert_eq!(r.err(), Some(Error::InvalidAddress));
    w.send_to_self(&mut node, &local(b"w"), &local(b"w-alias"), user(1, b"hi"))
        .unwrap();
    let rt = w.receive(&mut node, 1).unwrap();
    assert_eq!(body_of(&rt.transport.payload), b"hi".to_vec());
    assert!(rt.msg_addr.addr_eq(&local(b"w-alias")));
}

#[test]
fn receive_on_empty_mailbox_times_out() {
    let mut node = Node::new();
    let ctx = root();
    let w = ctx.start_worker(&mut node, vec![local(b"w")]).unwrap();
    assert_eq!(w.receive(&mut node, 1).err(), Some(Error::Timeout));
    assert_eq!(
        w.receive_timeout(&mut node, 1, 5).err(),
        Some(Error::Timeout)
    );
}

#[test]
fn mistyped_messages_are_requeued_not_dropped() {
    let mut node = Node::new();
    let ctx = root();
    let w = ctx.start_worker(&mut node, vec![local(b"w")]).unwrap();
    ctx.send(&mut node, Route::single(local(b"w")), user(1, b"first"))
        .unwrap();
    ctx.send(&mut node, Route::single(local(b"w")), user(2, b"second"))
        .unwrap();
    // Asking for type 2 skips and requeues the type-1 message.
    let rt = w.receive(&mut node, 2).unwrap();
    assert_eq!(body_of(&rt.transport.payload), b"second".to_vec());
    // The skipped message is still there for its own receiver.
    let rt1 = w.receive(&mut node, 1).unwrap();
    assert_eq!(body_of(&rt1.transport.payload), b"first".to_vec());
}

#[test]
fn receive_match_never_matching_times_out_and_requeues_once() {
    let mut node = Node::new();
    let ctx = root();
    let w = ctx.start_worker(&mut node, vec![local(b"w")]).unwrap();
    for body in [b"m1".as_slice(), b"m2", b"m3"] {
        ctx.send(&mut node, Route::single(local(b"w")), user(5, body))
            .unwrap();
    }
    // A predicate that never matches exhausts the wait and reports Timeout,
    // having requeued every message exactly once ...
    let r = w.receive_match(&mut node, 5, &MatchNone);
    assert_eq!(r.err(), Some(Error::Timeout));
    // ... so the mailbox still yields all three, in order.
    for body in [b"m1".as_slice(), b"m2", b"m3"] {
        let rt = w.receive(&mut node, 5).unwrap();
        assert_eq!(body_of(&rt.transport.payload), body.to_vec());
    }
    assert_eq!(w.receive(&mut node, 5).err(), Some(Error::Timeout));
}

#[test]
fn receive_match_picks_the_selected_message() {
    let mut node = Node::new();
    let ctx = root();
    let w = ctx.start_worker(&mut node, vec![local(b"w")]).unwrap();
    ctx.send(&mut node, Route::single(local(b"w")), user(5, b"skip"))
        .unwrap();
    ctx.send(&mut node, Route::single(local(b"w")), user(5, b"pick"))
        .unwrap();
    let check = MatchEquals {
        expected: b"pick".to_vec(),
    };
    let rt = w.receive_match(&mut node, 5, &check).unwrap();
    assert_eq!(body_of(&rt.transport.payload), b"pick".to_vec());
    // The skipped message was requeued.
    let rt2 = w.receive(&mut node, 5).unwrap();
    assert_eq!(body_of(&rt2.transport.payload), b"skip".to_vec());
}

#[test]
fn unauthorized_messages_are_dropped_silently() {
    let mut node = Node::new();
    let ctx = root();
    let w = ctx
        .start_worker_with_access_control(&mut node, vec![local(b"w")], DenyAll)
        .unwrap();
    // The send itself succeeds: denial is not surfaced to the sender.
    ctx.send(&mut node, Route::single(local(b"w")), user(3, b"secret"))
        .unwrap();
    // The relay drops it before delivery: nothing to receive.
    assert_eq!(w.receive(&mut node, 3).err(), Some(Error::Timeout));
}

#[test]
fn deliver_to_closed_mailbox_fails() {
    let mut node = Node::new();
    let ctx = root();
    ctx.start_worker(&mut node, vec![local(b"w")]).unwrap();
    let (_addr, ep, wrap) = node.resolve(&local(b"w")).unwrap();
    assert!(!wrap);
    ctx.stop_worker(&mut node, &local(b"w")).unwrap();
    let tm = TransportMessage::new(Route::single(local(b"w")), Route::new(), user(1, b"x"));
    let r = node.deliver(ep, RelayMessage::direct(local(b"w"), tm));
    assert_eq!(r.err(), Some(Error::MailboxClosed));
}

#[test]
fn forward_consumes_no_hops_and_keeps_routes() {
    let mut node = Node::new();
    let ctx = root();
    let w = ctx.start_worker(&mut node, vec![local(b"w")]).unwrap();
    let tm = TransportMessage::new(
        Route::from_hops(vec![local(b"w"), local(b"beyond")]),
        Route::single(local(b"app")),
        user(9, b"fwd"),
    );
    ctx.forward(&mut node, tm).unwrap();
    let rt = w.receive(&mut node, 9).unwrap();
    // The consumed hop is stepped at delivery; the rest of the route stays.
    assert_eq!(rt.transport.onward_route.hops.len(), 1);
    assert!(rt.transport.onward_route.hops[0].addr_eq(&local(b"beyond")));
    assert_eq!(rt.transport.return_route.hops.len(), 1);
}

#[test]
fn route_step_consumes_hops_in_order() {
    let mut route = Route::from_hops(vec![local(b"h1"), local(b"h2"), local(b"h3")]);
    assert_eq!(route.len(), 3);
    // Exactly three step consumptions, yielding the hops in order.
    assert!(route.step().unwrap().addr_eq(&local(b"h1")));
    assert!(route.step().unwrap().addr_eq(&local(b"h2")));
    assert!(route.step().unwrap().addr_eq(&local(b"h3")));
    assert_eq!(route.len(), 0);
    assert!(route.step().is_none());
}

#[test]
fn route_rewriting_prepend_append() {
    let mut route = Route::single(local(b"mid"));
    route.prepend(local(b"first"));
    route.append(local(b"last"));
    assert_eq!(route.len(), 3);
    assert!(route.next().unwrap().addr_eq(&local(b"first")));
    assert!(route.hops[2].addr_eq(&local(b"last")));
}

#[test]
fn send_and_receive_delivers_but_cannot_gather_a_reply() {
    let mut node = Node::new();
    let ctx = root();
    let w = ctx.start_worker(&mut node, vec![local(b"svc")]).unwrap();
    // Nothing runs the service while the caller waits, so the exchange
    // reports Timeout; the request itself was delivered.
    let r = ctx.send_and_receive(&mut node, Route::single(local(b"svc")), user(4, b"req"), 4);
    assert_eq!(r.err(), Some(Error::Timeout));
    let rt = w.receive(&mut node, 4).unwrap();
    assert_eq!(body_of(&rt.transport.payload), b"req".to_vec());
    // The ephemeral child context is gone again.
    assert_eq!(ctx.list_workers(&node).len(), 1);
}

#[test]
fn send_and_receive_uses_a_fresh_return_address() {
    let mut node = Node::new();
    let ctx = root();
    let w = ctx.start_worker(&mut node, vec![local(b"svc")]).unwrap();
    let r = ctx.send_and_receive(&mut node, Route::single(local(b"svc")), user(4, b"req"), 4);
    assert_eq!(r.err(), Some(Error::Timeout));
    // The delivered request's return route is the minted ephemeral address.
    let rt = w.receive(&mut node, 4).unwrap();
    assert_eq!(rt.transport.return_route.hops.len(), 1);
    assert_eq!(rt.transport.return_route.hops[0].tt, 0);
    assert_eq!(
        rt.transport.return_route.hops[0].data,
        vec![0u8, 0, 0, 0, 0, 0, 0, 0]
    );
    // An unresolvable route creates nothing at all.
    let before = ctx.list_workers(&node).len();
    let r2 = ctx.send_and_receive(&mut node, Route::single(local(b"ghost")), user(4, b"x"), 4);
    assert_eq!(r2.err(), Some(Error::AddressUnknown));
    assert_eq!(ctx.list_workers(&node).len(), before);
}

#[test]
fn failed_initialization_leaves_no_live_entry() {
    let mut node = Node::new();
    let ctx = root();
    // The start request commits the provisional entry ...
    ctx.start_worker(&mut node, vec![local(b"w")]).unwrap();
    // ... the actor's initialization fails ...
    let policy = AllowAll;
    let r = relay_step(RelayState::Initializing, RelayEvent::InitFailed, &policy);
    assert!(matches!(r, (RelayState::Stopped, RelayAction::AbortStart)));
    // ... and the driver's abort undoes the registration: no live entry.
    ctx.stop_worker(&mut node, &local(b"w")).unwrap();
    assert_eq!(
        node.resolve(&local(b"w")).err(),
        Some(Error::AddressUnknown)
    );
    assert_eq!(ctx.list_workers(&node).len(), 0);
}

#[test]
fn aliases_are_everything_but_the_primary() {
    let ctx: Context<AllowAll> = Context::new(
        vec![local(b"main"), local(b"a1"), local(b"a2")],
        0,
        AllowAll,
    );
    assert!(ctx.address().addr_eq(&local(b"main")));
    let aliases = ctx.aliases();
    assert_eq!(aliases.len(), 2);
    assert!(aliases[0].addr_eq(&local(b"a1")));
    assert!(aliases[1].addr_eq(&local(b"a2")));
}

#[test]
fn relay_loop_state_machine() {
    let policy = AllowAll;
    // Initialization gates the loop.
    let r = relay_step(RelayState::Initializing, RelayEvent::InitSucceeded, &policy);
    assert!(matches!(r, (RelayState::Running, RelayAction::AckStart)));
    let r = relay_step(RelayState::Initializing, RelayEvent::InitFailed, &policy);
    assert!(matches!(r, (RelayState::Stopped, RelayAction::AbortStart)));

    // A direct payload is delivered with its consumed hop stepped.
    let tm = TransportMessage::new(
        Route::single(local(b"w")),
        Route::single(local(b"app")),
        Payload::User {
            mtype: 1,
            body: b"m".to_vec(),
        },
    );
    let m = RelayMessage::direct(local(b"w"), tm);
    let r = relay_step(RelayState::Running, RelayEvent::Payload(m), &policy);
    match r {
        (RelayState::Running, RelayAction::Deliver(t)) => {
            assert_eq!(t.onward_route.hops.len(), 0);
        }
        _ => panic!("expected delivery"),
    }

    // A stop signal acknowledges and terminates; afterwards nothing runs.
    let r = relay_step(RelayState::Running, RelayEvent::Ctrl(CtrlSignal::Stop), &policy);
    assert!(matches!(r, (RelayState::Stopped, RelayAction::AckStopAndExit)));
    let tm2 = TransportMessage::new(Route::new(), Route::new(), Payload::User {
        mtype: 1,
        body: b"late".to_vec(),
    });
    let m2 = RelayMessage::direct(local(b"w"), tm2);
    let r = relay_step(RelayState::Stopped, RelayEvent::Payload(m2), &policy);
    assert!(matches!(r, (RelayState::Stopped, RelayAction::Ignore)));
}

#[test]
fn relay_drops_unauthorized_payloads() {
    let policy = DenyAll;
    let tm = TransportMessage::new(Route::new(), Route::new(), Payload::User {
        mtype: 1,
        body: b"m".to_vec(),
    });
    let m = RelayMessage::direct(local(b"w"), tm);
    let r = relay_step(RelayState::Running, RelayEvent::Payload(m), &policy);
    assert!(matches!(r, (RelayState::Running, RelayAction::DropUnauthorized)));
    // A pre-router envelope is not checked here.
    let tm2 = TransportMessage::new(Route::new(), Route::new(), Payload::User {
        mtype: 1,
        body: b"m".to_vec(),
    });
    let m2 = RelayMessage::pre_router(local(b"w"), tm2);
    let r = relay_step(RelayState::Running, RelayEvent::Payload(m2), &policy);
    assert!(matches!(r, (RelayState::Running, RelayAction::Deliver(_))));
}

#[test]
fn relay_payload_enum_carries_wrapping_tag() {
    let tm = TransportMessage::new(Route::new(), Route::new(), Payload::User {
        mtype: 1,
        body: b"x".to_vec(),
    });
    let m = RelayMessage::pre_router(local(b"r"), tm);
    assert!(matches!(m.data, RelayPayload::PreRouter(_)));
}
