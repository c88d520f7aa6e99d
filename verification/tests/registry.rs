use ockam_node::access::AllowAll;
use ockam_node::address::Address;
use ockam_node::context::Context;
use ockam_node::error::Error;
use ockam_node::node::{AddressType, Node, NodeMessage, NodeReply, ShutdownKind};

fn root() -> Context<AllowAll> {
    Context::new(vec![Address::local(b"app".to_vec())], 0, AllowAll)
}

fn local(s: &[u8]) -> Address {
    Address::local(s.to_vec())
}

#[test]
fn start_disjoint_batches_succeed() {
    let mut node = Node::new();
    let ctx = root();
    assert!(ctx
        .start_worker(&mut node, vec![local(b"a1"), local(b"a2")])
        .is_ok());
    assert!(ctx
        .start_worker(&mut node, vec![local(b"b1"), local(b"b2")])
        .is_ok());
    let listed = ctx.list_workers(&node);
    assert_eq!(listed.len(), 4);
    assert!(listed[0].addr_eq(&local(b"a1")));
    assert!(listed[3].addr_eq(&local(b"b2")));
}

#[test]
fn start_twice_fails_whole_batch() {
    let mut node = Node::new();
    let ctx = root();
    assert!(ctx.start_worker(&mut node, vec![local(b"a1")]).is_ok());
    // The second batch collides on one address: nothing of it is inserted.
    let r = ctx.start_worker(&mut node, vec![local(b"fresh"), local(b"a1")]);
    assert_eq!(r.err(), Some(Error::AddressInUse));
    assert_eq!(ctx.list_workers(&node).len(), 1);
    // And the exact duplicate fails the same way.
    let r2 = ctx.start_worker(&mut node, vec![local(b"a1")]);
    assert_eq!(r2.err(), Some(Error::AddressInUse));
    assert_eq!(ctx.list_workers(&node).len(), 1);
}

#[test]
fn batch_with_internal_duplicate_is_rejected() {
    let mut node = Node::new();
    let ctx = root();
    let r = ctx.start_worker(&mut node, vec![local(b"x"), local(b"x")]);
    assert_eq!(r.err(), Some(Error::AddressInUse));
    assert_eq!(ctx.list_workers(&node).len(), 0);
}

#[test]
fn stop_unknown_address_is_not_found() {
    let mut node = Node::new();
    let ctx = root();
    let r = ctx.stop_worker(&mut node, &local(b"nobody"));
    assert_eq!(r.err(), Some(Error::NotFound));
}

#[test]
fn stop_worker_as_processor_is_not_found() {
    let mut node = Node::new();
    let ctx = root();
    ctx.start_worker(&mut node, vec![local(b"w")]).unwrap();
    let r = ctx.stop_processor(&mut node, &local(b"w"));
    assert_eq!(r.err(), Some(Error::NotFound));
    assert!(ctx.stop_worker(&mut node, &local(b"w")).is_ok());
}

#[test]
fn processor_lifecycle() {
    let mut node = Node::new();
    let ctx = root();
    let p = ctx.start_processor(&mut node, local(b"p1"));
    assert!(p.is_ok());
    assert!(ctx.stop_processor(&mut node, &local(b"p1")).is_ok());
    assert_eq!(
        ctx.stop_processor(&mut node, &local(b"p1")).err(),
        Some(Error::NotFound)
    );
}

#[test]
fn stop_removes_whole_address_set() {
    let mut node = Node::new();
    let ctx = root();
    ctx.start_worker(&mut node, vec![local(b"m"), local(b"alias")])
        .unwrap();
    // Stopping by the alias removes the primary too.
    assert!(ctx.stop_worker(&mut node, &local(b"alias")).is_ok());
    assert_eq!(ctx.list_workers(&node).len(), 0);
    assert!(node.resolve(&local(b"m")).is_err());
}

#[test]
fn no_start_during_shutdown() {
    let mut node = Node::new();
    let ctx = root();
    node.shutdown(ShutdownKind::Immediate);
    let r = ctx.start_worker(&mut node, vec![local(b"late")]);
    assert_eq!(r.err(), Some(Error::NodeShuttingDown));
}

#[test]
fn register_type_router_at_most_once_per_tag() {
    let mut node = Node::new();
    let ctx = root();
    assert!(ctx.register(&mut node, 1, local(b"router1")).is_ok());
    let r = ctx.register(&mut node, 1, local(b"router2"));
    assert_eq!(r.err(), Some(Error::AlreadyRegistered));
    assert!(ctx.register(&mut node, 2, local(b"router2")).is_ok());
}

#[test]
fn reserved_cluster_names_are_rejected() {
    let mut node = Node::new();
    let ctx = root();
    let w = ctx.start_worker(&mut node, vec![local(b"w")]).unwrap();
    assert_eq!(
        w.set_cluster(&mut node, b"_internals.io".to_vec()).err(),
        Some(Error::ReservedName)
    );
    assert_eq!(
        w.set_cluster(&mut node, b"ockam.core".to_vec()).err(),
        Some(Error::ReservedName)
    );
    assert!(w.set_cluster(&mut node, b"my.group".to_vec()).is_ok());
}

#[test]
fn set_cluster_requires_live_address() {
    let mut node = Node::new();
    let ctx = root();
    // The root context's address was never registered.
    assert_eq!(
        ctx.set_cluster(&mut node, b"group".to_vec()).err(),
        Some(Error::NotFound)
    );
}

#[test]
fn readiness_and_wait_for() {
    let mut node = Node::new();
    let ctx = root();
    let w = ctx.start_worker(&mut node, vec![local(b"w")]).unwrap();
    // Not ready yet: a wait would suspend forever here, so it reports Timeout.
    assert_eq!(
        ctx.wait_for(&node, &local(b"w")).err(),
        Some(Error::Timeout)
    );
    w.set_ready(&mut node).unwrap();
    assert!(ctx.wait_for(&node, &local(b"w")).is_ok());
    ctx.stop_worker(&mut node, &local(b"w")).unwrap();
    assert_eq!(
        ctx.wait_for(&node, &local(b"w")).err(),
        Some(Error::NotFound)
    );
}

#[test]
fn minted_addresses_follow_the_counter() {
    let mut node = Node::new();
    let a0 = node.mint_fresh_address();
    let a1 = node.mint_fresh_address();
    assert_eq!(a0.tt, 0);
    assert_eq!(a0.data, vec![0u8, 0, 0, 0, 0, 0, 0, 0]);
    assert_eq!(a1.data, vec![1u8, 0, 0, 0, 0, 0, 0, 0]);
    assert!(!a0.addr_eq(&a1));
}

#[test]
fn lifecycle_requests_answered_exactly_once() {
    let mut node = Node::new();
    // Each request on the control channel gets exactly one reply.
    let r = node.handle_node_message(NodeMessage::StartWorker {
        addresses: vec![local(b"w")],
        detached: false,
    });
    assert!(matches!(r, NodeReply::Started { .. }));

    let r = node.handle_node_message(NodeMessage::SenderReq {
        address: local(b"w"),
    });
    match r {
        NodeReply::Sender {
            addr,
            needs_wrapping,
            ..
        } => {
            assert!(addr.addr_eq(&local(b"w")));
            assert!(!needs_wrapping);
        }
        _ => panic!("expected a resolved sender"),
    }

    let r = node.handle_node_message(NodeMessage::CheckReady {
        address: local(b"w"),
    });
    assert!(matches!(r, NodeReply::Ready(false)));
    let r = node.handle_node_message(NodeMessage::SetReady {
        address: local(b"w"),
    });
    assert!(matches!(r, NodeReply::Accepted));
    let r = node.handle_node_message(NodeMessage::CheckReady {
        address: local(b"w"),
    });
    assert!(matches!(r, NodeReply::Ready(true)));

    let r = node.handle_node_message(NodeMessage::ListWorkers);
    match r {
        NodeReply::Workers(w) => assert_eq!(w.len(), 1),
        _ => panic!("expected the registry snapshot"),
    }

    let r = node.handle_node_message(NodeMessage::StopWorker {
        address: local(b"w"),
    });
    assert!(matches!(r, NodeReply::Accepted));
    let r = node.handle_node_message(NodeMessage::SenderReq {
        address: local(b"w"),
    });
    assert!(matches!(r, NodeReply::Failed(Error::AddressUnknown)));

    let r = node.handle_node_message(NodeMessage::StopNode {
        kind: ShutdownKind::Graceful(1),
    });
    assert!(matches!(r, NodeReply::NodeStopped(_)));
}

#[test]
fn mint_counter_wraps_at_the_top() {
    let mut node = Node::new();
    node.next_fresh = u64::MAX;
    let top = node.mint_fresh_address();
    assert_eq!(top.data, vec![255u8; 8]);
    let wrapped = node.mint_fresh_address();
    assert_eq!(wrapped.data, vec![0u8; 8]);
    assert!(!top.addr_eq(&wrapped));
}

#[test]
fn address_type_names() {
    assert_eq!(AddressType::Worker.str(), "worker");
    assert_eq!(AddressType::Processor.str(), "processor");
}

#[test]
fn address_equality_is_byte_for_byte() {
    let a = Address::new(1, b"10.0.0.5:4000".to_vec());
    let b = Address::new(1, b"10.0.0.5:4000".to_vec());
    let c = Address::new(0, b"10.0.0.5:4000".to_vec());
    let d = Address::new(1, b"10.0.0.5:4001".to_vec());
    assert!(a.addr_eq(&b));
    assert!(!a.addr_eq(&c));
    assert!(!a.addr_eq(&d));
}
