use ockam_node::access::AllowAll;
use ockam_node::address::Address;
use ockam_node::context::Context;
use ockam_node::error::Error;
use ockam_node::node::{Node, NodeState, ShutdownKind};

fn root() -> Context<AllowAll> {
    Context::new(vec![Address::local(b"app".to_vec())], 0, AllowAll)
}

fn local(s: &[u8]) -> Address {
    Address::local(s.to_vec())
}

#[test]
fn graceful_shutdown_reverses_cluster_creation_order() {
    let mut node = Node::new();
    let ctx = root();
    // Clusters are created in the order first used: c1, c2, c3.
    let w1 = ctx.start_worker(&mut node, vec![local(b"w1")]).unwrap();
    let w2 = ctx.start_worker(&mut node, vec![local(b"w2")]).unwrap();
    let w3 = ctx.start_worker(&mut node, vec![local(b"w3")]).unwrap();
    let w4 = ctx.start_worker(&mut node, vec![local(b"w4")]).unwrap();
    let w5 = ctx.start_worker(&mut node, vec![local(b"w5")]).unwrap();
    ctx.start_worker(&mut node, vec![local(b"w6")]).unwrap();
    w1.set_cluster(&mut node, b"c1".to_vec()).unwrap();
    w2.set_cluster(&mut node, b"c1".to_vec()).unwrap();
    w3.set_cluster(&mut node, b"c2".to_vec()).unwrap();
    w4.set_cluster(&mut node, b"c3".to_vec()).unwrap();
    w5.set_cluster(&mut node, b"c3".to_vec()).unwrap();
    // w6 stays ungrouped.

    let order = node.shutdown(ShutdownKind::Graceful(1));
    // Stop signals go to c3's members first, then c2, then c1; the
    // ungrouped actor comes last.
    let expected: Vec<&[u8]> = vec![b"w4", b"w5", b"w3", b"w1", b"w2", b"w6"];
    assert_eq!(order.len(), expected.len());
    for (got, want) in order.iter().zip(expected.iter()) {
        assert!(got.addr_eq(&local(want)));
    }
    assert!(matches!(node.state, NodeState::Stopped));
    assert_eq!(node.records.len(), 0);
}

#[test]
fn immediate_shutdown_signals_nobody() {
    let mut node = Node::new();
    let ctx = root();
    ctx.start_worker(&mut node, vec![local(b"w1")]).unwrap();
    ctx.start_worker(&mut node, vec![local(b"w2")]).unwrap();
    let order = node.shutdown(ShutdownKind::Immediate);
    assert_eq!(order.len(), 0);
    assert!(matches!(node.state, NodeState::Stopped));
    assert_eq!(node.records.len(), 0);
}

#[test]
fn context_stop_variants_drain_the_node() {
    let mut node = Node::new();
    let ctx = root();
    ctx.start_worker(&mut node, vec![local(b"w")]).unwrap();
    ctx.stop(&mut node).unwrap();
    assert!(matches!(node.state, NodeState::Stopped));
    assert_eq!(ctx.list_workers(&node).len(), 0);

    let mut node2 = Node::new();
    ctx.start_worker(&mut node2, vec![local(b"w")]).unwrap();
    ctx.stop_timeout(&mut node2, 3).unwrap();
    assert!(matches!(node2.state, NodeState::Stopped));

    let mut node3 = Node::new();
    ctx.start_worker(&mut node3, vec![local(b"w")]).unwrap();
    ctx.stop_now(&mut node3).unwrap();
    assert!(matches!(node3.state, NodeState::Stopped));
}

#[test]
fn messages_in_flight_are_lost_on_immediate_shutdown() {
    let mut node = Node::new();
    let ctx = root();
    let w = ctx.start_worker(&mut node, vec![local(b"w")]).unwrap();
    ctx.send(
        &mut node,
        ockam_node::route::Route::single(local(b"w")),
        ockam_node::message::Payload::User {
            mtype: 1,
            body: b"doomed".to_vec(),
        },
    )
    .unwrap();
    node.shutdown(ShutdownKind::Immediate);
    // The mailbox is closed with the message still inside: receiving fails.
    assert_eq!(w.receive(&mut node, 1).err(), Some(Error::MailboxClosed));
}

#[test]
fn stopped_actor_keeps_its_cluster_slot_but_gets_no_signal_target() {
    // A documented choice: cluster bookkeeping keeps the address of a
    // stopped member, and shutdown still lists it in signal order — the
    // signal just finds nobody.
    let mut node = Node::new();
    let ctx = root();
    let w1 = ctx.start_worker(&mut node, vec![local(b"w1")]).unwrap();
    w1.set_cluster(&mut node, b"c1".to_vec()).unwrap();
    ctx.stop_worker(&mut node, &local(b"w1")).unwrap();
    let order = node.shutdown(ShutdownKind::Graceful(1));
    assert_eq!(order.len(), 1);
    assert!(order[0].addr_eq(&local(b"w1")));
}
