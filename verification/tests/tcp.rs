use ockam_node::access::AllowAll;
use ockam_node::address::{Address, TCP};
use ockam_node::context::Context;
use ockam_node::error::Error;
use ockam_node::message::{Payload, RelayMessage, RelayPayload, TransportMessage};
use ockam_node::node::Node;
use ockam_node::route::Route;
use ockam_node::tcp_router::{TcpRouter, TcpRouterRequest};

fn root() -> Context<AllowAll> {
    Context::new(vec![Address::local(b"app".to_vec())], 0, AllowAll)
}

fn local(s: &[u8]) -> Address {
    Address::local(s.to_vec())
}

fn tcp(s: &[u8]) -> Address {
    Address::new(TCP, s.to_vec())
}

fn user(mtype: u32, body: &[u8]) -> Payload {
    Payload::User {
        mtype,
        body: body.to_vec(),
    }
}

fn body_of(p: &Payload) -> Vec<u8> {
    match p {
        Payload::User { body, .. } => body.clone(),
        _ => panic!("not a user payload"),
    }
}

/// Drive the router actor for one delivered envelope.
fn drive(router: &mut TcpRouter, node: &mut Node) {
    let m = router
        .ctx
        .mailbox_next(node)
        .expect("router mailbox wait failed")
        .expect("router mailbox closed");
    router.handle_message(node, m).expect("router turn failed");
}

#[test]
fn unseen_peer_is_connected_on_demand_and_mapping_reused() {
    let mut node = Node::new();
    let ctx = root();
    let mut router = TcpRouter::register(&ctx, &mut node).unwrap();

    // Route a message to an unseen peer of transport type TCP.
    let peer = tcp(b"10.0.0.5:4000");
    ctx.send(&mut node, Route::single(peer.clone()), user(2, b"hello"))
        .unwrap();
    drive(&mut router, &mut node);

    // A connection-handler actor was created and registered under the peer.
    assert_eq!(router.map.len(), 1);
    assert!(router.map[0].peer.addr_eq(&peer));
    let handler = router.map[0].handler.clone();
    let (_a, ep, wrap) = node.resolve(&handler).unwrap();
    assert!(!wrap);

    // The message was delivered through the new handler.
    let delivered = node.pop_mailbox(ep).unwrap();
    match &delivered.data {
        RelayPayload::Direct(tm) => {
            assert_eq!(body_of(&tm.payload), b"hello".to_vec());
            assert!(tm.onward_route.hops[0].addr_eq(&handler));
        }
        _ => panic!("expected a direct envelope"),
    }

    // A repeat send to the same peer reuses the mapping: no second handler.
    ctx.send(&mut node, Route::single(peer.clone()), user(2, b"again"))
        .unwrap();
    drive(&mut router, &mut node);
    assert_eq!(router.map.len(), 1);
    assert!(router.map[0].handler.addr_eq(&handler));
    let delivered2 = node.pop_mailbox(ep).unwrap();
    match &delivered2.data {
        RelayPayload::Direct(tm) => assert_eq!(body_of(&tm.payload), b"again".to_vec()),
        _ => panic!("expected a direct envelope"),
    }
}

#[test]
fn unregistered_tcp_address_resolves_to_the_router_wrapped() {
    let mut node = Node::new();
    let ctx = root();
    let router = TcpRouter::register(&ctx, &mut node).unwrap();
    // The peer is unknown, but its transport type has a router: resolution
    // hands it there, with the wrapping flag set.
    let (ra, _ep, wrap) = node.resolve(&tcp(b"somewhere:1")).unwrap();
    assert!(wrap);
    assert!(ra.addr_eq(&router.main_addr));
    // A local address without a router still fails.
    assert_eq!(
        node.resolve(&local(b"nowhere")).err(),
        Some(Error::AddressUnknown)
    );
}

#[test]
fn route_request_without_auto_connection_is_unknown() {
    let mut node = Node::new();
    let ctx = root();
    let mut router = TcpRouter::register(&ctx, &mut node).unwrap();
    router.allow_auto_connection = false;

    ctx.send(&mut node, Route::single(tcp(b"9.9.9.9:1")), user(1, b"x"))
        .unwrap();
    let m = router.ctx.mailbox_next(&mut node).unwrap().unwrap();
    let r = router.handle_message(&mut node, m);
    assert_eq!(r.err(), Some(Error::UnknownRoute));
    assert_eq!(router.map.len(), 0);
}

#[test]
fn router_initialization_joins_the_transport_cluster() {
    let mut node = Node::new();
    let ctx = root();
    let router = TcpRouter::register(&ctx, &mut node).unwrap();
    router.initialize(&mut node).unwrap();
    // The router's primary address now sits in the transport's cluster and
    // is signalled on graceful shutdown.
    let order = node.shutdown(ockam_node::node::ShutdownKind::Graceful(1));
    assert_eq!(order.len(), 1);
    assert!(order[0].addr_eq(&router.main_addr));
}

#[test]
fn register_batch_is_atomic() {
    let mut node = Node::new();
    let ctx = root();
    let mut router = TcpRouter::register(&ctx, &mut node).unwrap();

    router
        .handle_register(vec![tcp(b"p1"), tcp(b"p2")], local(b"h1"))
        .unwrap();
    assert_eq!(router.map.len(), 2);
    // One collision fails the whole batch: nothing is added.
    let r = router.handle_register(vec![tcp(b"p3"), tcp(b"p2")], local(b"h2"));
    assert_eq!(r.err(), Some(Error::AlreadyConnected));
    assert_eq!(router.map.len(), 2);
    // An empty batch is malformed.
    let r2 = router.handle_register(vec![], local(b"h2"));
    assert_eq!(r2.err(), Some(Error::InvalidAddress));
}

#[test]
fn unregister_scrubs_every_alias_of_a_handler() {
    let mut node = Node::new();
    let ctx = root();
    let mut router = TcpRouter::register(&ctx, &mut node).unwrap();
    router
        .handle_register(vec![tcp(b"p1"), tcp(b"p1-alias")], local(b"h1"))
        .unwrap();
    router
        .handle_register(vec![tcp(b"p2")], local(b"h2"))
        .unwrap();
    router.handle_unregister(&local(b"h1")).unwrap();
    assert_eq!(router.map.len(), 1);
    assert!(router.map[0].peer.addr_eq(&tcp(b"p2")));
}

#[test]
fn connect_collision_creates_nothing() {
    let mut node = Node::new();
    let ctx = root();
    let mut router = TcpRouter::register(&ctx, &mut node).unwrap();
    router
        .handle_register(vec![tcp(b"peer.example")], local(b"h1"))
        .unwrap();
    let workers_before = ctx.list_workers(&node).len();
    // The hostname alias collides: the whole connect is refused before any
    // worker is started or any mapping added.
    let r = router.handle_connect(
        &mut node,
        b"9.9.9.9:80".to_vec(),
        vec![b"peer.example".to_vec()],
    );
    assert_eq!(r.err(), Some(Error::AlreadyConnected));
    assert_eq!(router.map.len(), 1);
    assert_eq!(ctx.list_workers(&node).len(), workers_before);
}

#[test]
fn disconnect_unknown_peer_is_not_found() {
    let mut node = Node::new();
    let ctx = root();
    let mut router = TcpRouter::register(&ctx, &mut node).unwrap();
    let r = router.handle_disconnect(&mut node, b"1.2.3.4:5".to_vec());
    assert_eq!(r.err(), Some(Error::PeerNotFound));
}

#[test]
fn connect_then_disconnect_stops_the_handler() {
    let mut node = Node::new();
    let ctx = root();
    let mut router = TcpRouter::register(&ctx, &mut node).unwrap();
    let handler = router
        .handle_connect(&mut node, b"7.7.7.7:80".to_vec(), vec![b"peer.example".to_vec()])
        .unwrap();
    // Peer and hostname alias are both mapped to the handler.
    assert_eq!(router.map.len(), 2);
    assert!(node.resolve(&handler).is_ok());

    router
        .handle_disconnect(&mut node, b"7.7.7.7:80".to_vec())
        .unwrap();
    assert_eq!(router.map.len(), 0);
    // The connection worker is gone from the registry too.
    assert!(node.resolve(&handler).is_err());
}

#[test]
fn api_requests_travel_as_messages() {
    let mut node = Node::new();
    let ctx = root();
    // The caller needs a live mailbox for the response.
    let caller = ctx.start_worker(&mut node, vec![local(b"caller")]).unwrap();
    let mut router = TcpRouter::register(&ctx, &mut node).unwrap();

    let req = Payload::TcpRequest(TcpRouterRequest::Register {
        accepts: vec![tcp(b"p1")],
        self_addr: local(b"h1"),
    });
    caller
        .send(&mut node, Route::single(router.api_addr.clone()), req)
        .unwrap();
    drive(&mut router, &mut node);
    assert_eq!(router.map.len(), 1);

    // The response came back to the caller's mailbox.
    let (_a, ep, _w) = node.resolve(&local(b"caller")).unwrap();
    let resp = node.pop_mailbox(ep).unwrap();
    match resp.data {
        RelayPayload::Direct(tm) => {
            assert!(matches!(
                tm.payload,
                Payload::TcpResponse(ockam_node::tcp_router::TcpRouterResponse::Register(Ok(())))
            ));
        }
        _ => panic!("expected a direct response"),
    }
}

#[test]
fn malformed_router_messages_are_refused() {
    let mut node = Node::new();
    let ctx = root();
    let mut router = TcpRouter::register(&ctx, &mut node).unwrap();

    // A direct user payload at the main address does not decode as a route
    // request.
    let tm = TransportMessage::new(Route::new(), Route::new(), user(1, b"junk"));
    let m = RelayMessage::direct(router.main_addr.clone(), tm);
    assert_eq!(
        router.handle_message(&mut node, m).err(),
        Some(Error::DecodeError)
    );

    // An envelope for a stranger's address is refused outright.
    let tm2 = TransportMessage::new(Route::new(), Route::new(), user(1, b"junk"));
    let m2 = RelayMessage::direct(local(b"stranger"), tm2);
    assert_eq!(
        router.handle_message(&mut node, m2).err(),
        Some(Error::InvalidAddress)
    );
}
