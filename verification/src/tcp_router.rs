use vstd::prelude::*;
use crate::access::AllowAll;
use crate::address::{AbstractAddress, Address, TCP};
use crate::context::{delivered_envelope, send_effect, Context};
use crate::error::Error;
use crate::message::{Payload, RelayMessage, RelayPayload, TransportMessage};
use crate::node::{fresh_address, rec_owns, AddressType, Node};

verus! {

/// A management request for a TCP protocol router, addressed to its API
/// address.
#[verifier::ext_equal]
pub enum TcpRouterRequest {
    /// Map each address in `accepts` to the connection worker at `self_addr`;
    /// the whole batch is rejected if any mapping already exists.
    Register { accepts: Vec<Address>, self_addr: Address },
    /// Drop every mapping that points at the connection worker `self_addr`.
    Unregister { self_addr: Address },
    /// Establish a connection to the peer and register its addresses.
    Connect { peer: Vec<u8>, hostnames: Vec<Vec<u8>> },
    /// Tear down the connection to the peer and stop its connection worker.
    Disconnect { peer: Vec<u8> },
}

/// A TCP protocol router's reply to a management request.
#[verifier::ext_equal]
pub enum TcpRouterResponse {
    Register(Result<(), Error>),
    Unregister(Result<(), Error>),
    Connect(Result<Address, Error>),
    Disconnect(Result<(), Error>),
}

/// One entry of a protocol router's private connection table.
#[verifier::ext_equal]
pub struct ConnEntry {
    /// A peer address of the router's transport type.
    pub peer: Address,
    /// The local connection worker that reaches the peer.
    pub handler: Address,
}

/// Whether the connection table maps the peer address.
pub open spec fn map_has(m: Seq<ConnEntry>, a: AbstractAddress) -> bool {
    exists|i: int| 0 <= i < m.len() && (#[trigger] m[i]).peer@ == a
}

/// The index of the peer's entry (meaningful only when `map_has` holds;
/// unique by the router's well-formedness).
pub open spec fn map_index(m: Seq<ConnEntry>, a: AbstractAddress) -> int {
    choose|i: int| 0 <= i < m.len() && (#[trigger] m[i]).peer@ == a
}

/// The table with every entry of the given handler removed.
pub open spec fn without_handler(m: Seq<ConnEntry>, h: AbstractAddress) -> Seq<ConnEntry>
    decreases m.len(),
{
    if m.len() == 0 {
        Seq::empty()
    } else {
        without_handler(m.drop_last(), h) + (if m.last().handler@ == h {
            Seq::empty()
        } else {
            seq![m.last()]
        })
    }
}

/// What a registration request does to the connection table: nothing at all
/// on an empty batch or on any collision, the whole batch appended
/// otherwise.
pub open spec fn register_post(
    pre: Seq<ConnEntry>,
    accepts: Seq<Address>,
    h: AbstractAddress,
    post: Seq<ConnEntry>,
    r: Result<(), Error>,
) -> bool {
    if accepts.len() == 0 {
        r == Err::<(), Error>(Error::InvalidAddress) && post == pre
    } else if exists|k: int| 0 <= k < accepts.len() && map_has(pre, (#[trigger] accepts[k])@) {
        r == Err::<(), Error>(Error::AlreadyConnected) && post == pre
    } else {
        &&& r == Ok::<(), Error>(())
        &&& post.take(pre.len() as int) == pre
        &&& post.len() >= pre.len()
        &&& forall|k: int| 0 <= k < accepts.len() ==> map_has(post, (#[trigger] accepts[k])@)
        &&& forall|i: int|
            pre.len() <= i < post.len() ==> (#[trigger] post[i]).handler@ == h && (exists|k: int|
                0 <= k < accepts.len() && (#[trigger] accepts[k])@ == post[i].peer@)
    }
}

/// A TCP address router: the exemplar protocol router that plugs a
/// transport's dynamic, on-demand connection addresses into the generic
/// routing table.
///
/// It is an ordinary actor with two addresses: the main address, registered
/// with the node for transport type `TCP`, takes the route requests the
/// node delegates; the API address takes management requests.  The
/// connection table is the router's private bookkeeping: the connection
/// workers in it are real registry entries, started and stopped through the
/// same contract as any other actor.
pub struct TcpRouter {
    /// The router's own worker context: primary the main address, alias the
    /// API address.
    pub ctx: Context<AllowAll>,
    /// Takes delegated route requests.
    pub main_addr: Address,
    /// Takes management requests.
    pub api_addr: Address,
    /// Peer address → connection worker, disjoint from the node registry.
    pub map: Vec<ConnEntry>,
    /// Whether a route request for an unmapped peer may open a connection.
    pub allow_auto_connection: bool,
}

impl TcpRouter {
    /// The router's internal invariant: one table entry per peer, and a
    /// context whose primary address is the main address and whose alias is
    /// the API address.
    pub open spec fn wf(self) -> bool {
        &&& forall|i: int, k: int|
            0 <= i < self.map@.len() && 0 <= k < self.map@.len() && i != k ==> (
            #[trigger] self.map@[i]).peer@ != (#[trigger] self.map@[k]).peer@
        &&& self.ctx.addresses@.len() == 2
        &&& self.ctx.addresses@[0]@ == self.main_addr@
        &&& self.ctx.addresses@[1]@ == self.api_addr@
    }

    /// If some entry at `i` maps the peer, then `i` is the map index.
    pub proof fn lemma_map_is(self, a: AbstractAddress, i: int)
        requires
            self.wf(),
            0 <= i < self.map@.len(),
            self.map@[i].peer@ == a,
        ensures
            map_has(self.map@, a),
            map_index(self.map@, a) == i,
    {
        assert(map_has(self.map@, a));
    }

    /// Look up the connection worker for a peer address.
    fn lookup(&self, a: &Address) -> (r: Option<usize>)
        ensures
            match r {
                Some(i) => i < self.map@.len() && self.map@[i as int].peer@ == a@,
                None => !map_has(self.map@, a@),
            },
    {
        let mut i: usize = 0;
        while i < self.map.len()
            invariant
                i <= self.map@.len(),
                forall|i2: int| 0 <= i2 < i ==> (#[trigger] self.map@[i2]).peer@ != a@,
            decreases self.map@.len() - i,
        {
            if self.map[i].peer.addr_eq(a) {
                return Some(i);
            }
            i = i + 1;
        }
        None
    }

    /// Map each address of a batch to the connection worker at `self_addr`,
    /// atomically: the whole batch is rejected — with the table untouched —
    /// if it is empty or any address is already mapped.
    pub fn handle_register(&mut self, accepts: Vec<Address>, self_addr: Address) -> (r: Result<
        (),
        Error,
    >)
        requires
            old(self).wf(),
        ensures
            final (self).wf(),
            register_post(old(self).map@, accepts@, self_addr@, final (self).map@, r),
            final (self).ctx == old(self).ctx,
            final (self).main_addr == old(self).main_addr,
            final (self).api_addr == old(self).api_addr,
            final (self).allow_auto_connection == old(self).allow_auto_connection,
    {
        if accepts.len() == 0 {
            return Err(Error::InvalidAddress);
        }
        let mut k: usize = 0;
        while k < accepts.len()
            invariant
                *self == *old(self),
                old(self).wf(),
                accepts@.len() > 0,
                k <= accepts@.len(),
                forall|k2: int| 0 <= k2 < k ==> !map_has(self.map@, (#[trigger] accepts@[k2])@),
            decreases accepts@.len() - k,
        {
            if self.lookup(&accepts[k]).is_some() {
                proof {
                    assert(map_has(self.map@, accepts@[k as int]@));
                }
                return Err(Error::AlreadyConnected);
            }
            k = k + 1;
        }
        let ghost pre = self.map@;
        let mut k: usize = 0;
        while k < accepts.len()
            invariant
                old(self).wf(),
                k <= accepts@.len(),
                self.ctx == old(self).ctx,
                self.main_addr == old(self).main_addr,
                self.api_addr == old(self).api_addr,
                self.allow_auto_connection == old(self).allow_auto_connection,
                pre == old(self).map@,
                forall|k2: int| 0 <= k2 < accepts@.len() ==> !map_has(pre, (#[trigger] accepts@[k2])@),
                self.map@.take(pre.len() as int) == pre,
                self.map@.len() >= pre.len(),
                forall|k2: int| 0 <= k2 < k ==> map_has(self.map@, (#[trigger] accepts@[k2])@),
                forall|i: int|
                    pre.len() <= i < self.map@.len() ==> (#[trigger] self.map@[i]).handler@
                        == self_addr@ && (exists|k2: int|
                        0 <= k2 < accepts@.len() && (#[trigger] accepts@[k2])@
                            == self.map@[i].peer@),
                forall|i: int, k2: int|
                    0 <= i < self.map@.len() && 0 <= k2 < self.map@.len() && i != k2 ==> (
                    #[trigger] self.map@[i]).peer@ != (#[trigger] self.map@[k2]).peer@,
            decreases accepts@.len() - k,
        {
            let a = accepts[k].clone();
            if self.lookup(&a).is_none() {
                let ghost before = self.map@;
                self.map.push(ConnEntry { peer: a, handler: self_addr.clone() });
                proof {
                    assert(self.map@.take(pre.len() as int) =~= before.take(pre.len() as int));
                    assert(self.map@.last().peer@ == accepts@[k as int]@);
                    assert(map_has(self.map@, accepts@[k as int]@));
                    assert forall|k2: int| 0 <= k2 < k implies map_has(
                        self.map@,
                        (#[trigger] accepts@[k2])@,
                    ) by {
                        let i0 = map_index(before, accepts@[k2]@);
                        assert(before[i0].peer@ == accepts@[k2]@);
                        assert(self.map@[i0] == before[i0]);
                        assert(map_has(self.map@, accepts@[k2]@));
                    }
                }
            } else {
                proof {
                    assert(map_has(self.map@, accepts@[k as int]@));
                }
            }
            k = k + 1;
        }
        Ok(())
    }

    /// Drop every table entry that points at the given connection worker.
    pub fn handle_unregister(&mut self, self_addr: &Address) -> (r: Result<(), Error>)
        requires
            old(self).wf(),
        ensures
            final (self).wf(),
            r == Ok::<(), Error>(()),
            final (self).map@ == without_handler(old(self).map@, self_addr@),
            final (self).map@.len() <= old(self).map@.len(),
            final (self).ctx == old(self).ctx,
            final (self).main_addr == old(self).main_addr,
            final (self).api_addr == old(self).api_addr,
            final (self).allow_auto_connection == old(self).allow_auto_connection,
    {
        let ghost pre = self.map@;
        let mut kept: Vec<ConnEntry> = Vec::new();
        proof {
            assert(pre.take(pre.len() as int) =~= pre);
            assert(without_handler(pre.take(pre.len() as int), self_addr@) + kept@
                =~= without_handler(pre, self_addr@));
        }
        while self.map.len() > 0
            invariant
                old(self).wf(),
                self.ctx == old(self).ctx,
                self.main_addr == old(self).main_addr,
                self.api_addr == old(self).api_addr,
                self.allow_auto_connection == old(self).allow_auto_connection,
                pre == old(self).map@,
                self.map@.len() <= pre.len(),
                self.map@ == pre.take(self.map@.len() as int),
                without_handler(pre.take(self.map@.len() as int), self_addr@) + kept@
                    == without_handler(pre, self_addr@),
            decreases self.map@.len(),
        {
            let ghost j = self.map@.len() as int;
            let e = match self.map.pop() {
                Some(e) => e,
                None => {
                    return Err(Error::PeerNotFound);
                },
            };
            proof {
                assert(e == pre[j - 1]);
                assert(self.map@ =~= pre.take(j - 1));
                assert(pre.take(j).drop_last() =~= pre.take(j - 1));
                assert(pre.take(j).last() == pre[j - 1]);
            }
            if !e.handler.addr_eq(self_addr) {
                proof {
                    assert(without_handler(pre.take(j), self_addr@) =~= without_handler(
                        pre.take(j - 1),
                        self_addr@,
                    ).push(pre[j - 1]));
                    assert(without_handler(pre.take(j - 1), self_addr@) + kept@.insert(0, e)
                        =~= without_handler(pre.take(j), self_addr@) + kept@);
                }
                kept.insert(0, e);
            } else {
                proof {
                    assert(without_handler(pre.take(j), self_addr@) =~= without_handler(
                        pre.take(j - 1),
                        self_addr@,
                    ));
                }
            }
        }
        proof {
            assert(pre.take(0) =~= Seq::<ConnEntry>::empty());
            assert(without_handler(pre.take(0), self_addr@) =~= Seq::<ConnEntry>::empty());
            assert(kept@ =~= without_handler(pre, self_addr@));
        }
        self.map = kept;
        proof {
            lemma_without_handler_distinct(pre, self_addr@);
            lemma_without_handler_len(pre, self_addr@);
        }
        Ok(())
    }

    /// Establish a connection to a peer: start a connection worker at a
    /// freshly minted address and map the peer address — and every resolved
    /// hostname alias — to it, atomically.
    ///
    /// Resolving a peer string to its address and hostnames is the
    /// transport's own work outside this model; the caller passes the peer
    /// identity and the aliases as plain bytes.
    pub fn handle_connect(&mut self, node: &mut Node, peer: Vec<u8>, hostnames: Vec<Vec<u8>>) -> (r:
        Result<Address, Error>)
        requires
            old(self).wf(),
            old(node).wf(),
        ensures
            final (self).wf(),
            final (node).wf(),
            final (self).ctx == old(self).ctx,
            final (self).main_addr == old(self).main_addr,
            final (self).api_addr == old(self).api_addr,
            final (self).allow_auto_connection == old(self).allow_auto_connection,
            final (node).clusters@ == old(node).clusters@,
            final (node).type_routers@ == old(node).type_routers@,
            final (self).map@.take(old(self).map@.len() as int) == old(self).map@,
            match r {
                Ok(a) => {
                    &&& a@ == fresh_address(old(node).next_fresh)
                    &&& final (node).owns_addr(a@)
                    &&& final (node).next_fresh == Node::next_counter(old(node).next_fresh)
                    &&& final (node).mailboxes@.len() == old(node).mailboxes@.len() + 1
                    &&& final (node).mailboxes@.last().open
                    &&& final (node).mailboxes@.last().queue@.len() == 0
                    &&& forall|x: int|
                        0 <= x < old(node).mailboxes@.len() ==> #[trigger] final (
                        node).mailboxes@[x] == old(node).mailboxes@[x]
                    &&& final (node).resolve_spec(a@) == Some(
                        (a@, old(node).mailboxes@.len() as int, false),
                    )
                    &&& map_has(final (self).map@, (AbstractAddress { tt: TCP, data: peer@ }))
                    &&& final (self).map@[map_index(
                        final (self).map@,
                        (AbstractAddress { tt: TCP, data: peer@ }),
                    )].handler@ == a@
                    &&& forall|h: int|
                        0 <= h < hostnames@.len() ==> map_has(
                            final (self).map@,
                            (AbstractAddress { tt: TCP, data: #[trigger] hostnames@[h]@ }),
                        ) && final (self).map@[map_index(
                            final (self).map@,
                            (AbstractAddress { tt: TCP, data: hostnames@[h]@ }),
                        )].handler@ == a@
                },
                // On failure nothing was connected: the table and the
                // registry stand as they were.
                Err(e) => {
                    &&& (e == Error::NodeShuttingDown || e == Error::AddressInUse || e
                        == Error::AlreadyConnected)
                    &&& final (self).map@ == old(self).map@
                    &&& final (node).records@ == old(node).records@
                    &&& final (node).mailboxes@ == old(node).mailboxes@
                    &&& final (node).state == old(node).state
                },
            },
            // Success is owed: with the node running, the minted fresh
            // address unregistered, and neither the peer nor any hostname
            // alias mapped, the connection goes through.
            (old(node).state is Running && !old(node).owns_addr(fresh_address(old(node).next_fresh))
                && !map_has(old(self).map@, (AbstractAddress { tt: TCP, data: peer@ })) && (forall|
                h: int,
            |
                0 <= h < hostnames@.len() ==> !map_has(
                    old(self).map@,
                    (AbstractAddress { tt: TCP, data: #[trigger] hostnames@[h]@ }),
                ))) ==> r is Ok,
    {
        // Everything is checked before anything is created: a collision
        // leaves the table, the registry and the mint counter untouched.
        let tcp_address = Address::new(TCP, peer);
        let mut accepts: Vec<Address> = Vec::new();
        accepts.push(tcp_address);
        let mut h: usize = 0;
        while h < hostnames.len()
            invariant
                h <= hostnames@.len(),
                accepts@.len() == 1 + h,
                accepts@[0]@ == (AbstractAddress { tt: TCP, data: peer@ }),
                forall|k: int|
                    1 <= k < accepts@.len() ==> (#[trigger] accepts@[k])@ == (AbstractAddress {
                        tt: TCP,
                        data: hostnames@[k - 1]@,
                    }),
            decreases hostnames@.len() - h,
        {
            let hb = crate::address::clone_bytes(&hostnames[h]);
            accepts.push(Address::new(TCP, hb));
            h = h + 1;
        }
        let ghost aseq = accepts@;
        let mut k: usize = 0;
        while k < accepts.len()
            invariant
                *self == *old(self),
                *node == *old(node),
                old(self).wf(),
                old(node).wf(),
                accepts@ == aseq,
                aseq.len() == 1 + hostnames@.len(),
                aseq[0]@ == (AbstractAddress { tt: TCP, data: peer@ }),
                forall|k2: int|
                    1 <= k2 < aseq.len() ==> (#[trigger] aseq[k2])@ == (AbstractAddress {
                        tt: TCP,
                        data: hostnames@[k2 - 1]@,
                    }),
                k <= aseq.len(),
                forall|k2: int| 0 <= k2 < k ==> !map_has(self.map@, (#[trigger] aseq[k2])@),
            decreases aseq.len() - k,
        {
            if self.lookup(&accepts[k]).is_some() {
                proof {
                    assert(map_has(self.map@, aseq[k as int]@));
                    assert(self.map@.take(self.map@.len() as int) =~= self.map@);
                }
                return Err(Error::AlreadyConnected);
            }
            k = k + 1;
        }
        let tx_addr = node.mint_fresh_address();
        let mut worker_addrs: Vec<Address> = Vec::new();
        worker_addrs.push(tx_addr.clone());
        let ghost waddrs = worker_addrs@;
        proof {
            assert(self.map@.take(self.map@.len() as int) =~= self.map@);
        }
        match node.start(worker_addrs, AddressType::Worker, false) {
            Ok(_) => {},
            Err(e) => {
                return Err(e);
            },
        }
        let ghost pre_reg = *self;
        match self.handle_register(accepts, tx_addr.clone()) {
            Ok(()) => {
                proof {
                    assert forall|k2: int| 0 <= k2 < aseq.len() implies map_has(
                        self.map@,
                        (#[trigger] aseq[k2])@,
                    ) && self.map@[map_index(self.map@, aseq[k2]@)].handler@ == tx_addr@ by {
                        assert(map_has(self.map@, aseq[k2]@));
                        let i0 = map_index(self.map@, aseq[k2]@);
                        assert(self.map@[i0].peer@ == aseq[k2]@);
                        if i0 < pre_reg.map@.len() {
                            assert(self.map@[i0] == pre_reg.map@[i0]);
                            assert(map_has(pre_reg.map@, aseq[k2]@));
                            assert(false);
                        }
                    }
                    assert(map_has(self.map@, (AbstractAddress { tt: TCP, data: peer@ })));
                    assert forall|h2: int| 0 <= h2 < hostnames@.len() implies map_has(
                        self.map@,
                        (AbstractAddress { tt: TCP, data: #[trigger] hostnames@[h2]@ }),
                    ) && self.map@[map_index(
                        self.map@,
                        (AbstractAddress { tt: TCP, data: hostnames@[h2]@ }),
                    )].handler@ == tx_addr@ by {
                        assert(aseq[h2 + 1]@ == (AbstractAddress {
                            tt: TCP,
                            data: hostnames@[h2]@,
                        }));
                        assert(map_has(self.map@, aseq[h2 + 1]@));
                        assert(self.map@[map_index(self.map@, aseq[h2 + 1]@)].handler@
                            == tx_addr@);
                    }
                    assert(node.owns_addr(tx_addr@)) by {
                        assert(node.records@.last().addresses@ == waddrs);
                        assert(waddrs[0]@ == tx_addr@);
                        assert(rec_owns(node.records@.last(), tx_addr@));
                        node.lemma_owner_is(tx_addr@, node.records@.len() - 1);
                    }
                    node.lemma_owner_is(tx_addr@, node.records@.len() - 1);
                    assert(node.records@.last().endpoint == old(node).mailboxes@.len());
                    assert(node.resolve_spec(tx_addr@) == Some(
                        (tx_addr@, old(node).mailboxes@.len() as int, false),
                    ));
                }
                Ok(tx_addr)
            },
            Err(e) => {
                // The batch was pre-checked: registration cannot collide.
                proof {
                    assert(false);
                }
                Err(e)
            },
        }
    }

    /// Tear down the connection to a peer: drop its table entries and stop
    /// its connection worker.
    pub fn handle_disconnect(&mut self, node: &mut Node, peer: Vec<u8>) -> (r: Result<(), Error>)
        requires
            old(self).wf(),
            old(node).wf(),
        ensures
            final (self).wf(),
            final (node).wf(),
            final (self).ctx == old(self).ctx,
            final (self).main_addr == old(self).main_addr,
            final (self).api_addr == old(self).api_addr,
            final (self).allow_auto_connection == old(self).allow_auto_connection,
            final (self).map@.len() <= old(self).map@.len(),
            !map_has(old(self).map@, (AbstractAddress { tt: TCP, data: peer@ })) ==> r == Err::<
                (),
                Error,
            >(Error::PeerNotFound) && *final (self) == *old(self) && *final (node) == *old(node),
            map_has(old(self).map@, (AbstractAddress { tt: TCP, data: peer@ })) ==> {
                let h = old(self).map@[map_index(
                    old(self).map@,
                    (AbstractAddress { tt: TCP, data: peer@ }),
                )].handler@;
                &&& final (self).map@ == without_handler(old(self).map@, h)
                &&& Node::stop_post(*old(node), h, AddressType::Worker, *final (node), r)
            },
    {
        let tcp_address = Address::new(TCP, peer);
        let self_address = match self.lookup(&tcp_address) {
            Some(i) => {
                proof {
                    self.lemma_map_is(tcp_address@, i as int);
                }
                self.map[i].handler.clone()
            },
            None => {
                return Err(Error::PeerNotFound);
            },
        };
        match self.handle_unregister(&self_address) {
            Ok(()) => {},
            Err(e) => {
                return Err(e);
            },
        }
        node.stop(&self_address, AddressType::Worker)
    }

    /// Route a message whose next hop is a peer address of this transport.
    ///
    /// A mapped peer's message goes out through its connection worker: the
    /// peer hop is consumed, the worker's address is prepended in its place
    /// — the router inserts itself as a hop — and the message is forwarded.
    /// An unmapped peer is connected on demand when auto-connection is
    /// enabled, and refused with `UnknownRoute` otherwise.
    pub fn handle_route(&mut self, node: &mut Node, msg: TransportMessage) -> (r: Result<
        (),
        Error,
    >)
        requires
            old(self).wf(),
            old(node).wf(),
        ensures
            final (self).wf(),
            final (node).wf(),
            final (self).ctx == old(self).ctx,
            final (self).main_addr == old(self).main_addr,
            final (self).api_addr == old(self).api_addr,
            final (self).allow_auto_connection == old(self).allow_auto_connection,
            final (node).clusters@ == old(node).clusters@,
            final (node).type_routers@ == old(node).type_routers@,
            msg.onward_route@.len() == 0 ==> r == Err::<(), Error>(Error::UnknownRoute) && *final (
            self) == *old(self) && *final (node) == *old(node),
            msg.onward_route@.len() > 0 && map_has(old(self).map@, msg.onward_route@[0]) ==> {
                let h = old(self).map@[map_index(old(self).map@, msg.onward_route@[0])].handler@;
                &&& *final (self) == *old(self)
                &&& send_effect(
                    *old(node),
                    h,
                    seq![h] + msg.onward_route@.drop_first(),
                    msg.return_route@,
                    msg.payload,
                    *final (node),
                    r,
                )
            },
            msg.onward_route@.len() > 0 && !map_has(old(self).map@, msg.onward_route@[0]) && !old(
                self,
            ).allow_auto_connection ==> r == Err::<(), Error>(Error::UnknownRoute) && *final (self)
                == *old(self) && *final (node) == *old(node),
            msg.onward_route@.len() > 0 && !map_has(old(self).map@, msg.onward_route@[0]) && old(
                self,
            ).allow_auto_connection ==> {
                let h = fresh_address(old(node).next_fresh);
                match r {
                    // A connection worker was created for the peer, and the
                    // message went out through it: peer hop consumed, the
                    // worker prepended in its place.
                    Ok(_) => {
                        &&& map_has(
                            final (self).map@,
                            (AbstractAddress { tt: TCP, data: msg.onward_route@[0].data }),
                        )
                        &&& final (self).map@[map_index(
                            final (self).map@,
                            (AbstractAddress { tt: TCP, data: msg.onward_route@[0].data }),
                        )].handler@ == h
                        &&& final (node).owns_addr(h)
                        &&& final (node).mailboxes@.len() == old(node).mailboxes@.len() + 1
                        &&& final (node).mailboxes@.last().queue@.len() == 1
                        &&& delivered_envelope(
                            final (node).mailboxes@.last().queue@[0],
                            h,
                            false,
                            seq![h] + msg.onward_route@.drop_first(),
                            msg.return_route@,
                            msg.payload,
                        )
                        &&& forall|x: int|
                            0 <= x < old(node).mailboxes@.len() ==> #[trigger] final (
                            node).mailboxes@[x] == old(node).mailboxes@[x]
                    },
                    // A failed auto-connection changes nothing.
                    Err(_) => {
                        &&& final (self).map@ == old(self).map@
                        &&& final (node).records@ == old(node).records@
                        &&& final (node).mailboxes@ == old(node).mailboxes@
                        &&& final (node).state == old(node).state
                    },
                }
            },
            // Success is owed: running node, fresh address free, unmapped
            // peer of the router's own transport type, auto-connection on.
            (msg.onward_route@.len() > 0 && msg.onward_route@[0].tt == TCP && !map_has(
                old(self).map@,
                msg.onward_route@[0],
            ) && old(self).allow_auto_connection && old(node).state is Running && !old(
                node,
            ).owns_addr(fresh_address(old(node).next_fresh))) ==> r is Ok,
    {
        if msg.onward_route.len() == 0 {
            return Err(Error::UnknownRoute);
        }
        let ghost head = msg.onward_route@[0];
        let ghost mut auto_case = false;
        let ghost mut mid = *node;
        let found = match msg.onward_route.next() {
            Some(onward) => self.lookup(onward),
            None => {
                return Err(Error::UnknownRoute);
            },
        };
        let next: Address = match found {
            Some(i) => {
                proof {
                    self.lemma_map_is(head, i as int);
                }
                self.map[i].handler.clone()
            },
            None => {
                if !self.allow_auto_connection {
                    return Err(Error::UnknownRoute);
                }
                let onward = match msg.onward_route.next() {
                    Some(a) => a,
                    None => {
                        return Err(Error::UnknownRoute);
                    },
                };
                // The peer identity is the hop's own bytes; hostname
                // aliases would come from the transport's resolver.
                let peer = crate::address::clone_bytes(&onward.data);
                proof {
                    assert(head.data == peer@);
                    if head.tt == TCP {
                        assert(head =~= (AbstractAddress { tt: TCP, data: peer@ }));
                    }
                }
                match self.handle_connect(node, peer, Vec::new()) {
                    Ok(a) => {
                        proof {
                            auto_case = true;
                            mid = *node;
                        }
                        a
                    },
                    Err(e) => {
                        return Err(e);
                    },
                }
            },
        };
        let ghost nv = next@;
        let mut m2 = msg;
        let _consumed = m2.onward_route.step();
        m2.onward_route.prepend(next);
        proof {
            assert(m2.onward_route@ =~= seq![nv] + msg.onward_route@.drop_first());
        }
        match self.ctx.forward(node, m2) {
            Ok(()) => {
                proof {
                    if auto_case {
                        let obl = old(node).mailboxes@.len() as int;
                        assert(mid.resolve_spec(nv) == Some((nv, obl, false)));
                        assert(node.mailboxes@.len() == obl + 1);
                        assert(node.mailboxes@.last() == node.mailboxes@[obl]);
                        assert(node.mailboxes@[obl].queue@.len() == 1);
                        assert(node.mailboxes@[obl].queue@.last()
                            == node.mailboxes@[obl].queue@[0]);
                        assert forall|x: int| 0 <= x < obl implies #[trigger] node.mailboxes@[x]
                            == old(node).mailboxes@[x] by {
                            assert(node.mailboxes@[x] == mid.mailboxes@[x]);
                        }
                    }
                }
                Ok(())
            },
            Err(e) => {
                proof {
                    if auto_case {
                        assert(mid.resolve_spec(nv) is Some);
                        assert(false);
                    }
                }
                Err(e)
            },
        }
    }

    /// The cluster the transport's actors group under for ordered teardown.
    ///
    /// The reserved internal namespace is enforced uniformly here, so the
    /// router's own cluster carries a plain name ("transport.tcp" as bytes).
    pub open spec fn cluster_name() -> Seq<u8> {
        seq![116u8, 114u8, 97u8, 110u8, 115u8, 112u8, 111u8, 114u8, 116u8, 46u8, 116u8, 99u8,
            112u8]
    }

    /// The router's initialization hook, run once before its first message:
    /// it joins the transport's cluster, so the node stops it — and every
    /// cluster created before it — after the actors that depend on it.
    pub fn initialize(&self, node: &mut Node) -> (r: Result<(), Error>)
        requires
            self.wf(),
            old(node).wf(),
        ensures
            final (node).wf(),
            Node::set_cluster_post(
                *old(node),
                self.main_addr@,
                TcpRouter::cluster_name(),
                *final (node),
                r,
            ),
    {
        let label: Vec<u8> = vec![116u8, 114u8, 97u8, 110u8, 115u8, 112u8, 111u8, 114u8, 116u8,
            46u8, 116u8, 99u8, 112u8];
        proof {
            assert(label@ =~= TcpRouter::cluster_name());
        }
        self.ctx.set_cluster(node, label)
    }

    /// One turn of the router actor's handler, for one delivered envelope.
    ///
    /// An envelope at the main address must be one the node wrapped for
    /// this router: its inner message is routed onward.  An envelope at the
    /// API address must carry a management request: it is served and the
    /// matching response is sent back along the envelope's return route.
    /// Anything else is refused.
    pub fn handle_message(&mut self, node: &mut Node, msg: RelayMessage) -> (r: Result<(), Error>)
        requires
            old(self).wf(),
            old(node).wf(),
        ensures
            final (self).wf(),
            final (node).wf(),
            final (self).ctx == old(self).ctx,
            final (self).main_addr == old(self).main_addr,
            final (self).api_addr == old(self).api_addr,
            final (self).allow_auto_connection == old(self).allow_auto_connection,
            final (node).clusters@ == old(node).clusters@,
            final (node).type_routers@ == old(node).type_routers@,
            msg.addr@ != old(self).main_addr@ && msg.addr@ != old(self).api_addr@ ==> r == Err::<
                (),
                Error,
            >(Error::InvalidAddress) && *final (self) == *old(self) && *final (node) == *old(node),
            msg.addr@ == old(self).main_addr@ && msg.data is Direct ==> r == Err::<(), Error>(
                Error::DecodeError,
            ) && *final (self) == *old(self) && *final (node) == *old(node),
            msg.addr@ == old(self).api_addr@ && msg.addr@ != old(self).main_addr@ ==> match msg
                .data {
                RelayPayload::Direct(tm) => match tm.payload {
                    // Every served request is answered exactly once: the
                    // matching response goes out along the envelope's
                    // return route, from the router's own address — or the
                    // turn fails with UnknownRoute on an empty return route.
                    Payload::TcpRequest(req) => match req {
                        TcpRouterRequest::Register { accepts, self_addr } => exists|
                            rr: Result<(), Error>,
                        |
                            {
                                &&& #[trigger] register_post(
                                    old(self).map@,
                                    accepts@,
                                    self_addr@,
                                    final (self).map@,
                                    rr,
                                )
                                &&& final (node).records@ == old(node).records@
                                &&& if tm.return_route@.len() == 0 {
                                    r == Err::<(), Error>(Error::UnknownRoute) && *final (node)
                                        == *old(node)
                                } else {
                                    send_effect(
                                        *old(node),
                                        tm.return_route@[0],
                                        tm.return_route@,
                                        seq![old(self).main_addr@],
                                        Payload::TcpResponse(TcpRouterResponse::Register(rr)),
                                        *final (node),
                                        r,
                                    )
                                }
                            },
                        TcpRouterRequest::Unregister { self_addr } => {
                            &&& final (self).map@ == without_handler(old(self).map@, self_addr@)
                            &&& final (node).records@ == old(node).records@
                            &&& if tm.return_route@.len() == 0 {
                                r == Err::<(), Error>(Error::UnknownRoute) && *final (node)
                                    == *old(node)
                            } else {
                                send_effect(
                                    *old(node),
                                    tm.return_route@[0],
                                    tm.return_route@,
                                    seq![old(self).main_addr@],
                                    Payload::TcpResponse(TcpRouterResponse::Unregister(Ok(()))),
                                    *final (node),
                                    r,
                                )
                            }
                        },
                        // A connect only ever adds mappings, on top of the
                        // old table; a disconnect only ever removes some.
                        TcpRouterRequest::Connect { .. } => final (self).map@.take(
                            old(self).map@.len() as int,
                        ) == old(self).map@ && (tm.return_route@.len() == 0 ==> r == Err::<
                            (),
                            Error,
                        >(Error::UnknownRoute)),
                        TcpRouterRequest::Disconnect { .. } => final (self).map@.len() <= old(
                            self,
                        ).map@.len() && (tm.return_route@.len() == 0 ==> r == Err::<(), Error>(
                            Error::UnknownRoute,
                        )),
                    },
                    _ => r == Err::<(), Error>(Error::DecodeError) && *final (self) == *old(self)
                        && *final (node) == *old(node),
                },
                RelayPayload::PreRouter(_) => r == Err::<(), Error>(Error::DecodeError) && *final (
                self) == *old(self) && *final (node) == *old(node),
            },
    {
        if msg.addr.addr_eq(&self.main_addr) {
            match msg.data {
                RelayPayload::PreRouter(tm) => self.handle_route(node, tm),
                RelayPayload::Direct(_) => Err(Error::DecodeError),
            }
        } else if msg.addr.addr_eq(&self.api_addr) {
            let tm = match msg.data {
                RelayPayload::Direct(t) => t,
                RelayPayload::PreRouter(_) => {
                    return Err(Error::DecodeError);
                },
            };
            let (req, return_route) = match tm.payload {
                Payload::TcpRequest(req) => (req, tm.return_route),
                _ => {
                    return Err(Error::DecodeError);
                },
            };
            let response: TcpRouterResponse = match req {
                TcpRouterRequest::Register { accepts, self_addr } => {
                    let res = self.handle_register(accepts, self_addr);
                    TcpRouterResponse::Register(res)
                },
                TcpRouterRequest::Unregister { self_addr } => {
                    let res = self.handle_unregister(&self_addr);
                    TcpRouterResponse::Unregister(res)
                },
                TcpRouterRequest::Connect { peer, hostnames } => {
                    let res = self.handle_connect(node, peer, hostnames);
                    TcpRouterResponse::Connect(res)
                },
                TcpRouterRequest::Disconnect { peer } => {
                    let res = self.handle_disconnect(node, peer);
                    TcpRouterResponse::Disconnect(res)
                },
            };
            if return_route.len() == 0 {
                return Err(Error::UnknownRoute);
            }
            self.ctx.send(node, return_route, Payload::TcpResponse(response))
        } else {
            Err(Error::InvalidAddress)
        }
    }

    /// Create and register a new TCP router with the node: its two fresh
    /// addresses are started as one worker, and the main address is bound
    /// to transport type `TCP` — the node then delegates every unresolved
    /// address of that type to it.
    #[verifier::rlimit(60)]
    pub fn register<P: crate::access::AccessControl>(ctx: &Context<P>, node: &mut Node) -> (r:
        Result<TcpRouter, Error>)
        requires
            old(node).wf(),
            ctx.addresses@.len() > 0,
        ensures
            final (node).wf(),
            final (node).clusters@ == old(node).clusters@,
            match r {
                Ok(router) => {
                    &&& router.wf()
                    &&& router.map@.len() == 0
                    &&& router.allow_auto_connection
                    &&& router.main_addr@ == fresh_address(old(node).next_fresh)
                    &&& final (node).has_type_router(TCP)
                    &&& final (node).type_router_addr(TCP) == router.main_addr@
                    &&& final (node).owns_addr(router.main_addr@)
                    &&& final (node).owns_addr(router.api_addr@)
                },
                Err(e) => e == Error::NodeShuttingDown || e == Error::AddressInUse || e
                    == Error::AlreadyRegistered,
            },
            // Success is owed: with the node running, both minted fresh
            // addresses unregistered and the transport type still unbound,
            // registration goes through.
            (old(node).state is Running && !old(node).owns_addr(fresh_address(old(node).next_fresh))
                && !old(node).owns_addr(
                fresh_address(Node::next_counter(old(node).next_fresh)),
            ) && !old(node).has_type_router(TCP)) ==> r is Ok,
    {
        let main_addr = node.mint_fresh_address();
        let api_addr = node.mint_fresh_address();
        proof {
            crate::node::lemma_fresh_address_injective(
                old(node).next_fresh,
                Node::next_counter(old(node).next_fresh),
            );
        }
        let mut addrs: Vec<Address> = Vec::new();
        addrs.push(main_addr.clone());
        addrs.push(api_addr.clone());
        let ghost aseq = addrs@;
        let worker_ctx = match ctx.start_worker(node, addrs) {
            Ok(c) => c,
            Err(e) => {
                return Err(e);
            },
        };
        proof {
            assert(node.records@.last().addresses@ == aseq);
            assert(aseq[0]@ == main_addr@);
            assert(aseq[1]@ == api_addr@);
            assert(rec_owns(node.records@.last(), main_addr@));
            assert(rec_owns(node.records@.last(), api_addr@));
            node.lemma_owner_is(main_addr@, node.records@.len() - 1);
            assert(crate::address::views_of(worker_ctx.addresses@)[0]
                == worker_ctx.addresses@[0]@);
            assert(crate::address::views_of(worker_ctx.addresses@)[1]
                == worker_ctx.addresses@[1]@);
            assert(crate::address::views_of(aseq)[0] == aseq[0]@);
            assert(crate::address::views_of(aseq)[1] == aseq[1]@);
        }
        match ctx.register(node, TCP, main_addr.clone()) {
            Ok(()) => {},
            Err(e) => {
                return Err(e);
            },
        }
        proof {
            assert(node.owns_addr(main_addr@)) by {
                assert(rec_owns(node.records@.last(), main_addr@));
                node.lemma_owner_is(main_addr@, node.records@.len() - 1);
            }
            assert(node.owns_addr(api_addr@)) by {
                node.lemma_owner_is(api_addr@, node.records@.len() - 1);
            }
        }
        Ok(
            TcpRouter {
                ctx: worker_ctx,
                main_addr,
                api_addr,
                map: Vec::new(),
                allow_auto_connection: true,
            },
        )
    }
}


/// A scrub never grows the table.
proof fn lemma_without_handler_len(m: Seq<ConnEntry>, h: AbstractAddress)
    ensures
        without_handler(m, h).len() <= m.len(),
    decreases m.len(),
{
    if m.len() > 0 {
        lemma_without_handler_len(m.drop_last(), h);
    }
}

/// A scrub of a table with pairwise distinct peers keeps the peers
/// pairwise distinct.
proof fn lemma_without_handler_distinct(m: Seq<ConnEntry>, h: AbstractAddress)
    requires
        forall|i: int, k: int|
            0 <= i < m.len() && 0 <= k < m.len() && i != k ==> (#[trigger] m[i]).peer@ != (
            #[trigger] m[k]).peer@,
    ensures
        forall|x: int, y: int|
            0 <= x < without_handler(m, h).len() && 0 <= y < without_handler(m, h).len() && x != y
                ==> (#[trigger] without_handler(m, h)[x]).peer@ != (#[trigger] without_handler(
                m,
                h,
            )[y]).peer@,
    decreases m.len(),
{
    let w = without_handler(m, h);
    if m.len() > 0 {
        let prev = m.drop_last();
        let wprev = without_handler(prev, h);
        lemma_without_handler_distinct(prev, h);
        if m.last().handler@ == h {
            assert(w =~= wprev);
        } else {
            assert(w =~= wprev.push(m.last()));
            assert forall|x: int, y: int|
                0 <= x < w.len() && 0 <= y < w.len() && x != y implies (#[trigger] w[x]).peer@ != (
            #[trigger] w[y]).peer@ by {
                if x < wprev.len() && y < wprev.len() {
                    assert(w[x] == wprev[x]);
                    assert(w[y] == wprev[y]);
                } else {
                    let inner = if x < wprev.len() {
                        x
                    } else {
                        y
                    };
                    assert(inner < wprev.len());
                    lemma_without_handler_member(prev, h, inner);
                    let p = choose|p: int| 0 <= p < prev.len() && wprev[inner] == prev[p];
                    assert(m[p] == prev[p]);
                    assert(m[p].peer@ != m[m.len() - 1].peer@);
                }
            }
        }
    }
}

/// Every surviving entry of a scrub is an entry of the original sequence,
/// at some position short of the last.
proof fn lemma_without_handler_member(m: Seq<ConnEntry>, h: AbstractAddress, x: int)
    requires
        0 <= x < without_handler(m, h).len(),
    ensures
        exists|p: int| 0 <= p < m.len() && without_handler(m, h)[x] == m[p],
    decreases m.len(),
{
    let w = without_handler(m, h);
    if m.len() > 0 {
        let wprev = without_handler(m.drop_last(), h);
        if m.last().handler@ == h {
            assert(w =~= wprev);
            lemma_without_handler_member(m.drop_last(), h, x);
            let p = choose|p: int|
                0 <= p < m.drop_last().len() && without_handler(m.drop_last(), h)[x] == m.drop_last()[p];
            assert(w[x] == m[p]);
        } else {
            assert(w =~= wprev.push(m.last()));
            if x < wprev.len() {
                lemma_without_handler_member(m.drop_last(), h, x);
                let p = choose|p: int|
                    0 <= p < m.drop_last().len() && without_handler(m.drop_last(), h)[x]
                        == m.drop_last()[p];
                assert(w[x] == m[p]);
            } else {
                assert(w[x] == m[m.len() - 1]);
            }
        }
    }
}

} // verus!
