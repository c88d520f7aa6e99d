use vstd::prelude::*;
use crate::address::{bytes_eq, bytes_have_prefix, has_prefix, views_of, AbstractAddress, Address,
    LOCAL};
use crate::error::Error;
use crate::message::RelayMessage;

verus! {

/// Which flavour of actor owns an address: a worker is invoked per message,
/// a processor runs its own loop.  A stop request names the flavour it
/// expects and fails if the address belongs to the other one.
#[derive(Clone, Copy, Debug, PartialEq, Eq, Structural)]
pub enum AddressType {
    Worker,
    Processor,
}

impl AddressType {
    /// The flavour's name, for messages a maintainer reads.
    pub fn str(&self) -> (r: &'static str)
        ensures
            *self is Worker ==> r@ == "worker"@,
            *self is Processor ==> r@ == "processor"@,
    {
        match self {
            AddressType::Worker => "worker",
            AddressType::Processor => "processor",
        }
    }
}

/// How the node tears itself down.
#[derive(Clone, Copy, Debug, PartialEq, Eq, Structural)]
pub enum ShutdownKind {
    /// Abort everything at once; no stop signals are delivered and data in
    /// flight may be lost.
    Immediate,
    /// Deliver stop signals cluster by cluster, waiting up to the given
    /// number of seconds for each actor's acknowledgment.
    Graceful(u8),
}

/// The node lifecycle state machine: `Running → Stopping → Stopped`.
#[derive(Clone, Copy, Debug, PartialEq, Eq, Structural)]
pub enum NodeState {
    Running,
    Stopping,
    Stopped,
}

/// One actor's inbound payload queue.
///
/// In the running system the queue is a bounded channel whose producers are
/// suspended while it is full; backpressure is a scheduling concern with no
/// representation in this serialized model, so the queue here is unbounded.
#[verifier::ext_equal]
pub struct Mailbox {
    /// Queued envelopes, oldest first.
    pub queue: Vec<RelayMessage>,
    /// False once the owning actor is gone; a closed mailbox accepts nothing.
    pub open: bool,
}

/// The registry's record of one live actor.
#[verifier::ext_equal]
pub struct ActorRecord {
    /// The actor's address set: non-empty, first address primary.
    pub addresses: Vec<Address>,
    /// Index of the actor's mailbox in the node's mailbox table.
    pub endpoint: usize,
    /// Worker or processor.
    pub kind: AddressType,
    /// True for a bare context registered without a relay loop of its own.
    pub detached: bool,
    /// Set once the actor reported that its initialization finished.
    pub ready: bool,
}

/// A named, ordered group of primary addresses, torn down together — and in
/// reverse creation order across clusters — during graceful shutdown.
#[verifier::ext_equal]
pub struct Cluster {
    /// The cluster's name.
    pub name: Vec<u8>,
    /// Member primary addresses, in the order they joined.
    pub members: Vec<Address>,
}

/// The binding of one transport type tag to its protocol router's address.
#[verifier::ext_equal]
pub struct TypeRouterBinding {
    /// The transport type tag.
    pub tt: u8,
    /// The protocol router address resolution delegates to.
    pub addr: Address,
}

/// The node: the router's registry and lifecycle state together with every
/// actor's mailbox.
///
/// In the running system the router is an actor of its own and all of this
/// state is private to it; every mutation below is one serialized request
/// from that actor's queue.
#[verifier::ext_equal]
pub struct Node {
    /// Lifecycle state.
    pub state: NodeState,
    /// One record per live actor.
    pub records: Vec<ActorRecord>,
    /// At most one protocol router per transport type tag.
    pub type_routers: Vec<TypeRouterBinding>,
    /// Clusters, in creation order.
    pub clusters: Vec<Cluster>,
    /// Mailboxes ever allocated; entries are closed, never removed, so an
    /// endpoint index stays valid for the life of the node.
    pub mailboxes: Vec<Mailbox>,
    /// Counter the node mints fresh ephemeral addresses from.
    pub next_fresh: u64,
}

/// Whether a record owns the given address value.
pub open spec fn rec_owns(r: ActorRecord, a: AbstractAddress) -> bool {
    exists|j: int| 0 <= j < r.addresses@.len() && r.addresses@[j]@ == a
}

impl Node {
    /// Whether any live record owns the address.
    pub open spec fn owns_addr(self, a: AbstractAddress) -> bool {
        exists|i: int|
            0 <= i < self.records@.len() && rec_owns(#[trigger] self.records@[i], a)
    }

    /// The index of the record owning the address (meaningful only when
    /// `owns_addr` holds; unique by well-formedness).
    pub open spec fn owner_index(self, a: AbstractAddress) -> int {
        choose|i: int|
            0 <= i < self.records@.len() && rec_owns(#[trigger] self.records@[i], a)
    }

    /// Whether a protocol router is bound to the transport type tag.
    pub open spec fn has_type_router(self, tt: u8) -> bool {
        exists|i: int|
            0 <= i < self.type_routers@.len() && (#[trigger] self.type_routers@[i]).tt == tt
    }

    /// The index of the binding for the tag (meaningful only when
    /// `has_type_router` holds; unique by well-formedness).
    pub open spec fn type_router_index(self, tt: u8) -> int {
        choose|i: int|
            0 <= i < self.type_routers@.len() && (#[trigger] self.type_routers@[i]).tt == tt
    }

    /// The address of the protocol router bound to the tag (meaningful only
    /// when `has_type_router` holds; unique by well-formedness).
    pub open spec fn type_router_addr(self, tt: u8) -> AbstractAddress {
        self.type_routers@[self.type_router_index(tt)].addr@
    }

    /// Registry invariants: every record names at least one address and an
    /// open mailbox of its own, no two records share an endpoint, no address
    /// is registered twice, protocol router bindings and cluster names are
    /// unique.
    pub open spec fn wf(self) -> bool {
        &&& forall|i: int|
            0 <= i < self.records@.len() ==> (#[trigger] self.records@[i]).addresses@.len() > 0
        &&& forall|i: int|
            0 <= i < self.records@.len() ==> (#[trigger] self.records@[i]).endpoint
                < self.mailboxes@.len()
        &&& forall|i: int|
            0 <= i < self.records@.len() ==> self.mailboxes@[(
            #[trigger] self.records@[i]).endpoint as int].open
        &&& forall|i: int, k: int|
            0 <= i < self.records@.len() && 0 <= k < self.records@.len() && i != k
                ==> (#[trigger] self.records@[i]).endpoint != (#[trigger] self.records@[k]).endpoint
        &&& forall|i1: int, j1: int, i2: int, j2: int|
            #![trigger self.records@[i1].addresses@[j1], self.records@[i2].addresses@[j2]]
            0 <= i1 < self.records@.len() && 0 <= j1 < self.records@[i1].addresses@.len() && 0 <= i2
                < self.records@.len() && 0 <= j2 < self.records@[i2].addresses@.len()
                && self.records@[i1].addresses@[j1]@ == self.records@[i2].addresses@[j2]@ ==> i1
                == i2 && j1 == j2
        &&& forall|i: int, k: int|
            0 <= i < self.type_routers@.len() && 0 <= k < self.type_routers@.len() && i != k
                ==> (#[trigger] self.type_routers@[i]).tt != (#[trigger] self.type_routers@[k]).tt
        &&& forall|i: int, k: int|
            0 <= i < self.clusters@.len() && 0 <= k < self.clusters@.len() && i != k
                ==> (#[trigger] self.clusters@[i]).name@ != (#[trigger] self.clusters@[k]).name@
    }

    /// A fresh node: running, with nothing registered.
    pub fn new() -> (r: Node)
        ensures
            r.wf(),
            r.state is Running,
            r.records@.len() == 0,
            r.type_routers@.len() == 0,
            r.clusters@.len() == 0,
            r.mailboxes@.len() == 0,
            r.next_fresh == 0,
    {
        Node {
            state: NodeState::Running,
            records: Vec::new(),
            type_routers: Vec::new(),
            clusters: Vec::new(),
            mailboxes: Vec::new(),
            next_fresh: 0,
        }
    }

    /// If some record at `i` owns `a`, then `i` is the owner index.
    pub proof fn lemma_owner_is(self, a: AbstractAddress, i: int)
        requires
            self.wf(),
            0 <= i < self.records@.len(),
            rec_owns(self.records@[i], a),
        ensures
            self.owns_addr(a),
            self.owner_index(a) == i,
    {
        assert(self.owns_addr(a));
        let k = self.owner_index(a);
        let j1 = choose|j: int|
            0 <= j < self.records@[i].addresses@.len() && self.records@[i].addresses@[j]@ == a;
        let j2 = choose|j: int|
            0 <= j < self.records@[k].addresses@.len() && self.records@[k].addresses@[j]@ == a;
        assert(self.records@[i].addresses@[j1]@ == self.records@[k].addresses@[j2]@);
    }

    /// Find the record owning the address, scanning the registry.
    pub fn find_owner(&self, a: &Address) -> (r: Option<usize>)
        ensures
            match r {
                Some(i) => i < self.records@.len() && rec_owns(self.records@[i as int], a@)
                    && self.owns_addr(a@),
                None => !self.owns_addr(a@),
            },
    {
        let mut i: usize = 0;
        while i < self.records.len()
            invariant
                i <= self.records@.len(),
                forall|i2: int| 0 <= i2 < i ==> !rec_owns(#[trigger] self.records@[i2], a@),
            decreases self.records@.len() - i,
        {
            let rec = &self.records[i];
            let mut j: usize = 0;
            while j < rec.addresses.len()
                invariant
                    j <= rec.addresses@.len(),
                    i < self.records@.len(),
                    rec == self.records@[i as int],
                    forall|j2: int| 0 <= j2 < j ==> rec.addresses@[j2]@ != a@,
                decreases rec.addresses@.len() - j,
            {
                if rec.addresses[j].addr_eq(a) {
                    return Some(i);
                }
                j = j + 1;
            }
            i = i + 1;
        }
        None
    }
}

/// Whether the address values of a batch are pairwise distinct.
pub open spec fn addrs_distinct(aa: Seq<Address>) -> bool {
    forall|i: int, j: int|
        0 <= i < aa.len() && 0 <= j < aa.len() && i != j ==> (#[trigger] aa[i])@ != (
        #[trigger] aa[j])@
}

/// Whether none of a batch's addresses is live in the node.
pub open spec fn none_registered(n: Node, aa: Seq<Address>) -> bool {
    forall|k: int| 0 <= k < aa.len() ==> !n.owns_addr((#[trigger] aa[k])@)
}

impl Node {
    /// What a start request may change: exactly one record and one mailbox
    /// appended on success, nothing at all on failure.
    pub open spec fn start_post(
        pre: Node,
        aa: Seq<Address>,
        kind: AddressType,
        detached: bool,
        post: Node,
        r: Result<usize, Error>,
    ) -> bool {
        if !(pre.state is Running) {
            r == Err::<usize, Error>(Error::NodeShuttingDown) && post == pre
        } else if !(addrs_distinct(aa) && none_registered(pre, aa)) {
            r == Err::<usize, Error>(Error::AddressInUse) && post == pre
        } else {
            &&& r == Ok::<usize, Error>(pre.mailboxes@.len() as usize)
            &&& post.records@.len() == pre.records@.len() + 1
            &&& post.records@.subrange(0, pre.records@.len() as int) == pre.records@
            &&& post.records@.last().addresses@ == aa
            &&& post.records@.last().endpoint == pre.mailboxes@.len()
            &&& post.records@.last().kind == kind
            &&& post.records@.last().detached == detached
            &&& !post.records@.last().ready
            &&& post.mailboxes@.len() == pre.mailboxes@.len() + 1
            &&& post.mailboxes@.subrange(0, pre.mailboxes@.len() as int) == pre.mailboxes@
            &&& post.mailboxes@.last().open
            &&& post.mailboxes@.last().queue@.len() == 0
            &&& post.state == pre.state
            &&& post.clusters@ == pre.clusters@
            &&& post.type_routers@ == pre.type_routers@
            &&& post.next_fresh == pre.next_fresh
        }
    }

    /// Start an actor: insert its whole address set atomically and allocate
    /// its mailbox.
    ///
    /// The batch is rejected as a whole — with the registry untouched — if
    /// any address collides with a live registration or repeats within the
    /// batch, and no start is accepted once shutdown has begun.  On success
    /// the new mailbox's index is returned.
    ///
    /// In the running system the actor's initialization races this request:
    /// the relay reports failure instead of readiness and no entry is
    /// committed.  The serialized model commits the entry here and leaves
    /// the initialization outcome to the relay step machine: on its
    /// abort-start action the driver undoes this registration with a stop
    /// request, so a failed initialization still leaves no live entry.
    pub fn start(&mut self, addresses: Vec<Address>, kind: AddressType, detached: bool) -> (r:
        Result<usize, Error>)
        requires
            old(self).wf(),
            addresses@.len() > 0,
        ensures
            final (self).wf(),
            Node::start_post(*old(self), addresses@, kind, detached, *final (self), r),
    {
        if !matches!(self.state, NodeState::Running) {
            return Err(Error::NodeShuttingDown);
        }
        // The whole batch is checked before anything is inserted.
        let mut k: usize = 0;
        while k < addresses.len()
            invariant
                *self == *old(self),
                old(self).wf(),
                self.state is Running,
                k <= addresses@.len(),
                forall|k2: int| 0 <= k2 < k ==> !self.owns_addr((#[trigger] addresses@[k2])@),
                forall|k2: int, k3: int|
                    0 <= k2 < k && 0 <= k3 < k && k2 != k3 ==> (#[trigger] addresses@[k2])@ != (
                    #[trigger] addresses@[k3])@,
            decreases addresses@.len() - k,
        {
            if self.find_owner(&addresses[k]).is_some() {
                proof {
                    assert(self.owns_addr(addresses@[k as int]@));
                    assert(!none_registered(*self, addresses@));
                }
                return Err(Error::AddressInUse);
            }
            let mut k2: usize = 0;
            while k2 < k
                invariant
                    *self == *old(self),
                    old(self).wf(),
                    self.state is Running,
                    k2 <= k,
                    k < addresses@.len(),
                    forall|k3: int| 0 <= k3 < k2 ==> addresses@[k3]@ != addresses@[k as int]@,
                decreases k - k2,
            {
                if addresses[k2].addr_eq(&addresses[k]) {
                    proof {
                        assert(addresses@[k2 as int]@ == addresses@[k as int]@);
                        assert(!addrs_distinct(addresses@));
                    }
                    return Err(Error::AddressInUse);
                }
                k2 = k2 + 1;
            }
            k = k + 1;
        }
        let endpoint: usize = self.mailboxes.len();
        let ghost pre = *self;
        self.mailboxes.push(Mailbox { queue: Vec::new(), open: true });
        self.records.push(
            ActorRecord { addresses, endpoint, kind, detached, ready: false },
        );
        proof {
            assert(self.records@.subrange(0, pre.records@.len() as int) =~= pre.records@);
            assert(self.mailboxes@.subrange(0, pre.mailboxes@.len() as int) =~= pre.mailboxes@);
            let n = pre.records@.len() as int;
            assert forall|i1: int, j1: int, i2: int, j2: int|
                #![trigger self.records@[i1].addresses@[j1], self.records@[i2].addresses@[j2]]
                0 <= i1 < self.records@.len() && 0 <= j1 < self.records@[i1].addresses@.len() && 0
                    <= i2 < self.records@.len() && 0 <= j2 < self.records@[i2].addresses@.len()
                    && self.records@[i1].addresses@[j1]@ == self.records@[i2].addresses@[j2]@
                implies i1 == i2 && j1 == j2 by {
                if i1 < n && i2 < n {
                    assert(pre.records@[i1].addresses@[j1]@ == pre.records@[i2].addresses@[j2]@);
                } else if i1 == n && i2 == n {
                    assert(addrs_distinct(addresses@));
                } else if i1 == n && i2 < n {
                    assert(rec_owns(pre.records@[i2], addresses@[j1]@));
                    assert(pre.owns_addr(addresses@[j1]@));
                    assert(false);
                } else {
                    assert(rec_owns(pre.records@[i1], addresses@[j2]@));
                    assert(pre.owns_addr(addresses@[j2]@));
                    assert(false);
                }
            }
        }
        Ok(endpoint)
    }

    /// What a stop request may change: the owning record removed and its
    /// mailbox closed, or nothing at all.
    pub open spec fn stop_post(
        pre: Node,
        a: AbstractAddress,
        kind: AddressType,
        post: Node,
        r: Result<(), Error>,
    ) -> bool {
        if pre.owns_addr(a) && pre.records@[pre.owner_index(a)].kind == kind {
            let i = pre.owner_index(a);
            let ep = pre.records@[i].endpoint as int;
            &&& r == Ok::<(), Error>(())
            &&& post.records@ == pre.records@.remove(i)
            &&& post.mailboxes@ == pre.mailboxes@.update(
                ep,
                (Mailbox { queue: pre.mailboxes@[ep].queue, open: false }),
            )
            &&& post.state == pre.state
            &&& post.clusters@ == pre.clusters@
            &&& post.type_routers@ == pre.type_routers@
            &&& post.next_fresh == pre.next_fresh
        } else {
            r == Err::<(), Error>(Error::NotFound) && post == pre
        }
    }

    /// Stop the actor that owns the address, if it is of the named flavour:
    /// its whole address set leaves the registry at once and its mailbox
    /// closes, so no further message can be delivered to it.
    pub fn stop(&mut self, a: &Address, kind: AddressType) -> (r: Result<(), Error>)
        requires
            old(self).wf(),
        ensures
            final (self).wf(),
            Node::stop_post(*old(self), a@, kind, *final (self), r),
    {
        let found = self.find_owner(a);
        match found {
            None => Err(Error::NotFound),
            Some(i) => {
                proof {
                    self.lemma_owner_is(a@, i as int);
                }
                if !(self.records[i].kind == kind) {
                    return Err(Error::NotFound);
                }
                let ghost pre = *self;
                let rec = self.records.remove(i);
                let ep: usize = rec.endpoint;
                let mut mb = self.mailboxes.remove(ep);
                mb.open = false;
                self.mailboxes.insert(ep, mb);
                proof {
                    let gi = i as int;
                    let gep = ep as int;
                    assert(self.mailboxes@ =~= pre.mailboxes@.update(
                        gep,
                        (Mailbox { queue: pre.mailboxes@[gep].queue, open: false }),
                    ));
                    assert forall|x: int| 0 <= x < self.records@.len() implies {
                        &&& (#[trigger] self.records@[x]).addresses@.len() > 0
                        &&& self.records@[x].endpoint < self.mailboxes@.len()
                        &&& self.mailboxes@[self.records@[x].endpoint as int].open
                    } by {
                        let px = if x < gi { x } else { x + 1 };
                        assert(self.records@[x] == pre.records@[px]);
                        assert(px != gi);
                        assert(pre.records@[px].endpoint != pre.records@[gi].endpoint);
                    }
                    assert forall|x: int, y: int|
                        0 <= x < self.records@.len() && 0 <= y < self.records@.len() && x != y
                        implies (#[trigger] self.records@[x]).endpoint != (
                    #[trigger] self.records@[y]).endpoint by {
                        let px = if x < gi { x } else { x + 1 };
                        let py = if y < gi { y } else { y + 1 };
                        assert(self.records@[x] == pre.records@[px]);
                        assert(self.records@[y] == pre.records@[py]);
                    }
                    assert forall|i1: int, j1: int, i2: int, j2: int|
                        #![trigger self.records@[i1].addresses@[j1], self.records@[i2].addresses@[j2]]
                        0 <= i1 < self.records@.len() && 0 <= j1
                            < self.records@[i1].addresses@.len() && 0 <= i2 < self.records@.len()
                            && 0 <= j2 < self.records@[i2].addresses@.len()
                            && self.records@[i1].addresses@[j1]@
                            == self.records@[i2].addresses@[j2]@ implies i1 == i2 && j1 == j2 by {
                        let p1 = if i1 < gi { i1 } else { i1 + 1 };
                        let p2 = if i2 < gi { i2 } else { i2 + 1 };
                        assert(self.records@[i1] == pre.records@[p1]);
                        assert(self.records@[i2] == pre.records@[p2]);
                        assert(pre.records@[p1].addresses@[j1]@ == pre.records@[p2].addresses@[j2]@);
                    }
                }
                Ok(())
            },
        }
    }

    /// What address resolution yields, if anything: the registered address
    /// delivery goes to, its mailbox index, and whether a protocol router
    /// must re-address the message first.
    ///
    /// A registered address resolves to itself.  An unregistered address
    /// carrying a transport type tag with a registered — and itself live —
    /// protocol router resolves to that router, with the wrapping flag set.
    /// Anything else does not resolve.
    pub open spec fn resolve_spec(self, a: AbstractAddress) -> Option<(AbstractAddress, int, bool)> {
        if self.owns_addr(a) {
            Some((a, self.records@[self.owner_index(a)].endpoint as int, false))
        } else if a.tt != LOCAL && self.has_type_router(a.tt) && self.owns_addr(
            self.type_router_addr(a.tt),
        ) {
            let ra = self.type_router_addr(a.tt);
            Some((ra, self.records@[self.owner_index(ra)].endpoint as int, true))
        } else {
            None
        }
    }

    /// If some binding at `i` covers `tt`, then `i` is the binding index.
    pub proof fn lemma_type_router_is(self, tt: u8, i: int)
        requires
            self.wf(),
            0 <= i < self.type_routers@.len(),
            self.type_routers@[i].tt == tt,
        ensures
            self.has_type_router(tt),
            self.type_router_index(tt) == i,
    {
        assert(self.has_type_router(tt));
    }

    /// Resolve an address to a delivery endpoint.
    ///
    /// This is the extension hook for transports: an absent address whose
    /// transport type tag has a registered protocol router is handed to that
    /// router — with the wrapping flag set — instead of failing.
    pub fn resolve(&self, a: &Address) -> (r: Result<(Address, usize, bool), Error>)
        requires
            self.wf(),
        ensures
            match r {
                Ok(t) => self.resolve_spec(a@) == Some((t.0@, t.1 as int, t.2)),
                Err(e) => e == Error::AddressUnknown && self.resolve_spec(a@) is None,
            },
    {
        match self.find_owner(a) {
            Some(i) => {
                proof {
                    self.lemma_owner_is(a@, i as int);
                }
                Ok((a.clone(), self.records[i].endpoint, false))
            },
            None => {
                if a.tt == LOCAL {
                    return Err(Error::AddressUnknown);
                }
                let mut t: usize = 0;
                while t < self.type_routers.len()
                    invariant
                        t <= self.type_routers@.len(),
                        self.wf(),
                        a.tt != LOCAL,
                        !self.owns_addr(a@),
                        forall|t2: int|
                            0 <= t2 < t ==> (#[trigger] self.type_routers@[t2]).tt != a.tt,
                    decreases self.type_routers@.len() - t,
                {
                    if self.type_routers[t].tt == a.tt {
                        proof {
                            self.lemma_type_router_is(a.tt, t as int);
                        }
                        let ra = &self.type_routers[t].addr;
                        match self.find_owner(ra) {
                            Some(i2) => {
                                proof {
                                    self.lemma_owner_is(ra@, i2 as int);
                                }
                                return Ok((ra.clone(), self.records[i2].endpoint, true));
                            },
                            None => {
                                return Err(Error::AddressUnknown);
                            },
                        }
                    }
                    t = t + 1;
                }
                proof {
                    assert(!self.has_type_router(a.tt));
                }
                Err(Error::AddressUnknown)
            },
        }
    }

    /// What a protocol-router binding request may change: one binding
    /// appended, or nothing on a duplicate tag.
    pub open spec fn register_type_post(
        pre: Node,
        tt: u8,
        a: AbstractAddress,
        post: Node,
        r: Result<(), Error>,
    ) -> bool {
        if pre.has_type_router(tt) {
            r == Err::<(), Error>(Error::AlreadyRegistered) && post == pre
        } else {
            &&& r == Ok::<(), Error>(())
            &&& post.type_routers@.len() == pre.type_routers@.len() + 1
            &&& post.type_routers@.subrange(0, pre.type_routers@.len() as int)
                == pre.type_routers@
            &&& post.type_routers@.last().tt == tt
            &&& post.type_routers@.last().addr@ == a
            &&& post.records@ == pre.records@
            &&& post.mailboxes@ == pre.mailboxes@
            &&& post.clusters@ == pre.clusters@
            &&& post.state == pre.state
            &&& post.next_fresh == pre.next_fresh
        }
    }

    /// Bind a transport type tag to its protocol router's address: at most
    /// one router per tag, so a second binding is rejected.
    pub fn register_type(&mut self, tt: u8, addr: Address) -> (r: Result<(), Error>)
        requires
            old(self).wf(),
        ensures
            final (self).wf(),
            Node::register_type_post(*old(self), tt, addr@, *final (self), r),
    {
        let mut t: usize = 0;
        while t < self.type_routers.len()
            invariant
                *self == *old(self),
                old(self).wf(),
                t <= self.type_routers@.len(),
                forall|t2: int| 0 <= t2 < t ==> (#[trigger] self.type_routers@[t2]).tt != tt,
            decreases self.type_routers@.len() - t,
        {
            if self.type_routers[t].tt == tt {
                proof {
                    self.lemma_type_router_is(tt, t as int);
                }
                return Err(Error::AlreadyRegistered);
            }
            t = t + 1;
        }
        proof {
            assert(!self.has_type_router(tt));
        }
        let ghost pre = *self;
        self.type_routers.push(TypeRouterBinding { tt, addr });
        proof {
            assert(self.type_routers@.subrange(0, pre.type_routers@.len() as int)
                =~= pre.type_routers@);
        }
        Ok(())
    }

    /// What a readiness report may change: the owning record marked ready,
    /// or nothing for an address that is not live.
    pub open spec fn set_ready_post(
        pre: Node,
        a: AbstractAddress,
        post: Node,
        r: Result<(), Error>,
    ) -> bool {
        if !pre.owns_addr(a) {
            r == Err::<(), Error>(Error::NotFound) && post == pre
        } else {
            let i = pre.owner_index(a);
            &&& r == Ok::<(), Error>(())
            &&& post.records@ == pre.records@.update(
                i,
                (ActorRecord { ready: true, ..pre.records@[i] }),
            )
            &&& post.mailboxes@ == pre.mailboxes@
            &&& post.clusters@ == pre.clusters@
            &&& post.type_routers@ == pre.type_routers@
            &&& post.state == pre.state
            &&& post.next_fresh == pre.next_fresh
        }
    }

    /// Record that the actor owning the address finished its initialization.
    pub fn set_ready(&mut self, a: &Address) -> (r: Result<(), Error>)
        requires
            old(self).wf(),
        ensures
            final (self).wf(),
            Node::set_ready_post(*old(self), a@, *final (self), r),
    {
        match self.find_owner(a) {
            None => Err(Error::NotFound),
            Some(i) => {
                proof {
                    self.lemma_owner_is(a@, i as int);
                }
                let ghost pre = *self;
                let mut rec = self.records.remove(i);
                rec.ready = true;
                self.records.insert(i, rec);
                proof {
                    assert(self.records@ =~= pre.records@.update(
                        i as int,
                        (ActorRecord { ready: true, ..pre.records@[i as int] }),
                    ));
                    assert forall|i1: int, j1: int, i2: int, j2: int|
                        #![trigger self.records@[i1].addresses@[j1], self.records@[i2].addresses@[j2]]
                        0 <= i1 < self.records@.len() && 0 <= j1
                            < self.records@[i1].addresses@.len() && 0 <= i2 < self.records@.len()
                            && 0 <= j2 < self.records@[i2].addresses@.len()
                            && self.records@[i1].addresses@[j1]@
                            == self.records@[i2].addresses@[j2]@ implies i1 == i2 && j1 == j2 by {
                        assert(self.records@[i1].addresses@ == pre.records@[i1].addresses@);
                        assert(self.records@[i2].addresses@ == pre.records@[i2].addresses@);
                        assert(pre.records@[i1].addresses@[j1]@ == pre.records@[i2].addresses@[j2]@);
                    }
                }
                Ok(())
            },
        }
    }

    /// Report whether the actor owning the address has become ready; fails
    /// if the address is not live.
    pub fn ready_state(&self, a: &Address) -> (r: Result<bool, Error>)
        requires
            self.wf(),
        ensures
            !self.owns_addr(a@) ==> r == Err::<bool, Error>(Error::NotFound),
            self.owns_addr(a@) ==> r == Ok::<bool, Error>(
                self.records@[self.owner_index(a@)].ready,
            ),
    {
        match self.find_owner(a) {
            None => Err(Error::NotFound),
            Some(i) => {
                proof {
                    self.lemma_owner_is(a@, i as int);
                }
                Ok(self.records[i].ready)
            },
        }
    }

    /// Append an envelope to a mailbox; a closed mailbox — its actor is gone
    /// — accepts nothing.
    pub fn deliver(&mut self, endpoint: usize, msg: RelayMessage) -> (r: Result<(), Error>)
        requires
            old(self).wf(),
            endpoint < old(self).mailboxes@.len(),
        ensures
            final (self).wf(),
            !old(self).mailboxes@[endpoint as int].open ==> r == Err::<(), Error>(
                Error::MailboxClosed,
            ) && *final (self) == *old(self),
            old(self).mailboxes@[endpoint as int].open ==> {
                &&& r == Ok::<(), Error>(())
                &&& final (self).mailboxes@.len() == old(self).mailboxes@.len()
                &&& final (self).mailboxes@[endpoint as int].open
                &&& final (self).mailboxes@[endpoint as int].queue@ == old(
                    self,
                ).mailboxes@[endpoint as int].queue@.push(msg)
                &&& forall|x: int|
                    0 <= x < old(self).mailboxes@.len() && x != endpoint as int ==> final (
                    self).mailboxes@[x] == old(self).mailboxes@[x]
                &&& final (self).records@ == old(self).records@
                &&& final (self).clusters@ == old(self).clusters@
                &&& final (self).type_routers@ == old(self).type_routers@
                &&& final (self).state == old(self).state
                &&& final (self).next_fresh == old(self).next_fresh
            },
    {
        if !self.mailboxes[endpoint].open {
            return Err(Error::MailboxClosed);
        }
        let ghost pre = *self;
        let mut mb = self.mailboxes.remove(endpoint);
        mb.queue.push(msg);
        self.mailboxes.insert(endpoint, mb);
        proof {
            assert forall|x: int| 0 <= x < pre.mailboxes@.len() && x != endpoint as int
                implies self.mailboxes@[x] == pre.mailboxes@[x] by {}
        }
        Ok(())
    }

    /// Whether the mailbox at the endpoint is still open.
    pub fn mailbox_open(&self, endpoint: usize) -> (r: bool)
        requires
            endpoint < self.mailboxes@.len(),
        ensures
            r == self.mailboxes@[endpoint as int].open,
    {
        self.mailboxes[endpoint].open
    }

    /// Take the oldest envelope out of a mailbox, if any is queued.
    pub fn pop_mailbox(&mut self, endpoint: usize) -> (r: Option<RelayMessage>)
        requires
            old(self).wf(),
            endpoint < old(self).mailboxes@.len(),
        ensures
            final (self).wf(),
            old(self).mailboxes@[endpoint as int].queue@.len() == 0 ==> r is None && *final (self)
                == *old(self),
            old(self).mailboxes@[endpoint as int].queue@.len() > 0 ==> {
                &&& r == Some(old(self).mailboxes@[endpoint as int].queue@[0])
                &&& final (self).mailboxes@.len() == old(self).mailboxes@.len()
                &&& final (self).mailboxes@[endpoint as int].open == old(
                    self,
                ).mailboxes@[endpoint as int].open
                &&& final (self).mailboxes@[endpoint as int].queue@ == old(
                    self,
                ).mailboxes@[endpoint as int].queue@.drop_first()
                &&& forall|x: int|
                    0 <= x < old(self).mailboxes@.len() && x != endpoint as int ==> final (
                    self).mailboxes@[x] == old(self).mailboxes@[x]
                &&& final (self).records@ == old(self).records@
                &&& final (self).clusters@ == old(self).clusters@
                &&& final (self).type_routers@ == old(self).type_routers@
                &&& final (self).state == old(self).state
                &&& final (self).next_fresh == old(self).next_fresh
            },
    {
        if self.mailboxes[endpoint].queue.len() == 0 {
            return None;
        }
        let ghost pre = *self;
        let mut mb = self.mailboxes.remove(endpoint);
        let msg = mb.queue.remove(0);
        self.mailboxes.insert(endpoint, mb);
        proof {
            assert(pre.mailboxes@[endpoint as int].queue@.remove(0)
                =~= pre.mailboxes@[endpoint as int].queue@.drop_first());
            assert forall|x: int| 0 <= x < pre.mailboxes@.len() && x != endpoint as int
                implies self.mailboxes@[x] == pre.mailboxes@[x] by {}
        }
        Some(msg)
    }
}

/// The cluster-name prefix reserved for the runtime's own internals.
pub open spec fn internals_prefix() -> Seq<u8> {
    seq![95u8, 105u8, 110u8, 116u8, 101u8, 114u8, 110u8, 97u8, 108u8, 115u8, 46u8]
}

/// The cluster-name prefix reserved for the runtime's bundled services.
pub open spec fn runtime_prefix() -> Seq<u8> {
    seq![111u8, 99u8, 107u8, 97u8, 109u8, 46u8]
}

/// Whether a cluster name lies in the namespace reserved for internal use and
/// must be rejected from user registration.
pub open spec fn is_reserved_name(name: Seq<u8>) -> bool {
    has_prefix(name, internals_prefix()) || has_prefix(name, runtime_prefix())
}

/// Check whether a cluster name is reserved.
pub fn reserved_name(name: &Vec<u8>) -> (r: bool)
    ensures
        r == is_reserved_name(name@),
{
    // "_internals." and "ockam." as bytes.
    let p1: Vec<u8> = vec![95u8, 105u8, 110u8, 116u8, 101u8, 114u8, 110u8, 97u8, 108u8, 115u8,
        46u8];
    let p2: Vec<u8> = vec![111u8, 99u8, 107u8, 97u8, 109u8, 46u8];
    proof {
        assert(p1@ =~= internals_prefix());
        assert(p2@ =~= runtime_prefix());
    }
    bytes_have_prefix(name, &p1) || bytes_have_prefix(name, &p2)
}

/// Whether a cluster holds the address among its members.
pub open spec fn cluster_has_member(c: Cluster, a: AbstractAddress) -> bool {
    exists|j: int| 0 <= j < c.members@.len() && c.members@[j]@ == a
}

impl Node {
    /// Whether the address is a member of any cluster.
    pub open spec fn in_any_cluster(self, a: AbstractAddress) -> bool {
        exists|i: int|
            0 <= i < self.clusters@.len() && cluster_has_member(#[trigger] self.clusters@[i], a)
    }

    /// Whether a cluster with the name exists.
    pub open spec fn has_cluster(self, name: Seq<u8>) -> bool {
        exists|i: int|
            0 <= i < self.clusters@.len() && (#[trigger] self.clusters@[i]).name@ == name
    }

    /// The index of the cluster with the name (meaningful only when
    /// `has_cluster` holds; unique by well-formedness).
    pub open spec fn cluster_index(self, name: Seq<u8>) -> int {
        choose|i: int|
            0 <= i < self.clusters@.len() && (#[trigger] self.clusters@[i]).name@ == name
    }

    /// If some cluster at `i` carries `name`, then `i` is the cluster index.
    pub proof fn lemma_cluster_is(self, name: Seq<u8>, i: int)
        requires
            self.wf(),
            0 <= i < self.clusters@.len(),
            self.clusters@[i].name@ == name,
        ensures
            self.has_cluster(name),
            self.cluster_index(name) == i,
    {
        assert(self.has_cluster(name));
    }

    /// Check whether the address is a member of any cluster.
    pub fn member_of_any_cluster(&self, a: &Address) -> (r: bool)
        ensures
            r == self.in_any_cluster(a@),
    {
        let mut i: usize = 0;
        while i < self.clusters.len()
            invariant
                i <= self.clusters@.len(),
                forall|i2: int|
                    0 <= i2 < i ==> !cluster_has_member(#[trigger] self.clusters@[i2], a@),
            decreases self.clusters@.len() - i,
        {
            let c = &self.clusters[i];
            let mut j: usize = 0;
            while j < c.members.len()
                invariant
                    j <= c.members@.len(),
                    i < self.clusters@.len(),
                    c == self.clusters@[i as int],
                    forall|j2: int| 0 <= j2 < j ==> c.members@[j2]@ != a@,
                decreases c.members@.len() - j,
            {
                if c.members[j].addr_eq(a) {
                    return true;
                }
                j = j + 1;
            }
            i = i + 1;
        }
        false
    }

    /// What a cluster-assignment request may change.
    pub open spec fn set_cluster_post(
        pre: Node,
        a: AbstractAddress,
        name: Seq<u8>,
        post: Node,
        r: Result<(), Error>,
    ) -> bool {
        if is_reserved_name(name) {
            r == Err::<(), Error>(Error::ReservedName) && post == pre
        } else if !pre.owns_addr(a) {
            r == Err::<(), Error>(Error::NotFound) && post == pre
        } else if pre.in_any_cluster(a) {
            r == Ok::<(), Error>(()) && post == pre
        } else {
            &&& r == Ok::<(), Error>(())
            &&& if pre.has_cluster(name) {
                let ci = pre.cluster_index(name);
                &&& post.clusters@.len() == pre.clusters@.len()
                &&& forall|x: int|
                    0 <= x < pre.clusters@.len() && x != ci ==> post.clusters@[x]
                        == pre.clusters@[x]
                &&& post.clusters@[ci].name@ == name
                &&& views_of(post.clusters@[ci].members@) == views_of(
                    pre.clusters@[ci].members@,
                ).push(a)
            } else {
                &&& post.clusters@.len() == pre.clusters@.len() + 1
                &&& post.clusters@.subrange(0, pre.clusters@.len() as int) == pre.clusters@
                &&& post.clusters@.last().name@ == name
                &&& views_of(post.clusters@.last().members@) == seq![a]
            }
            &&& post.records@ == pre.records@
            &&& post.mailboxes@ == pre.mailboxes@
            &&& post.type_routers@ == pre.type_routers@
            &&& post.state == pre.state
            &&& post.next_fresh == pre.next_fresh
        }
    }

    /// Assign an address to the named cluster, creating the cluster — and
    /// recording its creation order — on first use.
    ///
    /// Names in the reserved internal namespace are rejected, and an address
    /// that is not live is refused.  An address already grouped keeps its
    /// cluster and the request is acknowledged without effect — a deliberate
    /// choice where the running system would record the membership again:
    /// one membership per actor keeps the shutdown order signalling each
    /// actor exactly once.
    pub fn set_cluster(&mut self, a: &Address, name: Vec<u8>) -> (r: Result<(), Error>)
        requires
            old(self).wf(),
        ensures
            final (self).wf(),
            Node::set_cluster_post(*old(self), a@, name@, *final (self), r),
    {
        if reserved_name(&name) {
            return Err(Error::ReservedName);
        }
        if self.find_owner(a).is_none() {
            return Err(Error::NotFound);
        }
        if self.member_of_any_cluster(a) {
            return Ok(());
        }
        let ghost pre = *self;
        let mut i: usize = 0;
        while i < self.clusters.len()
            invariant
                *self == pre,
                pre == *old(self),
                pre.wf(),
                !is_reserved_name(name@),
                pre.owns_addr(a@),
                !pre.in_any_cluster(a@),
                i <= self.clusters@.len(),
                forall|i2: int| 0 <= i2 < i ==> (#[trigger] self.clusters@[i2]).name@ != name@,
            decreases self.clusters@.len() - i,
        {
            if bytes_eq(&self.clusters[i].name, &name) {
                proof {
                    self.lemma_cluster_is(name@, i as int);
                }
                let mut c = self.clusters.remove(i);
                c.members.push(a.clone());
                self.clusters.insert(i, c);
                proof {
                    crate::address::lemma_views_of_push(
                        pre.clusters@[i as int].members@,
                        self.clusters@[i as int].members@.last(),
                    );
                    assert(views_of(self.clusters@[i as int].members@) =~= views_of(
                        pre.clusters@[i as int].members@,
                    ).push(a@));
                    assert forall|x: int, y: int|
                        0 <= x < self.clusters@.len() && 0 <= y < self.clusters@.len() && x != y
                        implies (#[trigger] self.clusters@[x]).name@ != (
                    #[trigger] self.clusters@[y]).name@ by {
                        assert(self.clusters@[x].name@ == pre.clusters@[x].name@);
                        assert(self.clusters@[y].name@ == pre.clusters@[y].name@);
                    }
                }
                return Ok(());
            }
            i = i + 1;
        }
        proof {
            assert(!self.has_cluster(name@));
        }
        let mut members: Vec<Address> = Vec::new();
        members.push(a.clone());
        let ghost mseq = members@;
        self.clusters.push(Cluster { name, members });
        proof {
            assert(views_of(mseq) =~= seq![a@]);
            assert(self.clusters@.subrange(0, pre.clusters@.len() as int) =~= pre.clusters@);
            assert forall|x: int, y: int|
                0 <= x < self.clusters@.len() && 0 <= y < self.clusters@.len() && x != y implies (
            #[trigger] self.clusters@[x]).name@ != (#[trigger] self.clusters@[y]).name@ by {
                let n = pre.clusters@.len() as int;
                if x < n && y < n {
                    assert(pre.clusters@[x].name@ != pre.clusters@[y].name@);
                }
            }
        }
        Ok(())
    }

    /// The abstract addresses of every live registration, record by record,
    /// each record's addresses in order.
    pub open spec fn all_addr_views(rs: Seq<ActorRecord>) -> Seq<AbstractAddress>
        decreases rs.len(),
    {
        if rs.len() == 0 {
            Seq::empty()
        } else {
            Node::all_addr_views(rs.drop_last()) + views_of(rs.last().addresses@)
        }
    }

    /// A snapshot of the registry's keys: every live address, in
    /// registration order.
    pub fn list_workers(&self) -> (r: Vec<Address>)
        ensures
            views_of(r@) == Node::all_addr_views(self.records@),
    {
        let mut out: Vec<Address> = Vec::new();
        let mut i: usize = 0;
        while i < self.records.len()
            invariant
                i <= self.records@.len(),
                views_of(out@) == Node::all_addr_views(self.records@.take(i as int)),
            decreases self.records@.len() - i,
        {
            let rec = &self.records[i];
            let ghost entry = views_of(out@);
            let mut j: usize = 0;
            while j < rec.addresses.len()
                invariant
                    j <= rec.addresses@.len(),
                    i < self.records@.len(),
                    rec == self.records@[i as int],
                    views_of(out@) == entry + views_of(rec.addresses@.take(j as int)),
                decreases rec.addresses@.len() - j,
            {
                let a = rec.addresses[j].clone();
                proof {
                    crate::address::lemma_views_of_push(out@, a);
                    crate::address::lemma_views_of_push(
                        rec.addresses@.take(j as int),
                        rec.addresses@[j as int],
                    );
                    assert(rec.addresses@.take(j as int).push(rec.addresses@[j as int])
                        =~= rec.addresses@.take(j + 1));
                    assert(entry + views_of(rec.addresses@.take(j + 1)) =~= (entry + views_of(
                        rec.addresses@.take(j as int),
                    )).push(rec.addresses@[j as int]@));
                }
                out.push(a);
                j = j + 1;
            }
            proof {
                assert(rec.addresses@.take(rec.addresses@.len() as int) =~= rec.addresses@);
                assert(self.records@.take(i + 1).drop_last() =~= self.records@.take(i as int));
                assert(self.records@.take(i + 1).last() == self.records@[i as int]);
            }
            i = i + 1;
        }
        proof {
            assert(self.records@.take(self.records@.len() as int) =~= self.records@);
        }
        out
    }

    /// The member addresses of the first `k` clusters, processed in reverse
    /// creation order: the newest of the `k` first, each cluster's members in
    /// join order.
    pub open spec fn rev_cluster_views(cs: Seq<Cluster>, k: int) -> Seq<AbstractAddress>
        decreases k,
    {
        if k <= 0 {
            Seq::empty()
        } else {
            views_of(cs[k - 1].members@) + Node::rev_cluster_views(cs, k - 1)
        }
    }

    /// The primary addresses of the first `k` records whose primary address
    /// belongs to no cluster, in registration order.
    pub open spec fn ungrouped_views(rs: Seq<ActorRecord>, cs: Seq<Cluster>, k: int) -> Seq<
        AbstractAddress,
    >
        decreases k,
    {
        if k <= 0 {
            Seq::empty()
        } else {
            Node::ungrouped_views(rs, cs, k - 1) + (if !Node::clusters_contain(
                cs,
                rs[k - 1].addresses@[0]@,
            ) {
                seq![rs[k - 1].addresses@[0]@]
            } else {
                Seq::empty()
            })
        }
    }

    /// Whether any of the clusters holds the address among its members.
    pub open spec fn clusters_contain(cs: Seq<Cluster>, a: AbstractAddress) -> bool {
        exists|i: int| 0 <= i < cs.len() && cluster_has_member(#[trigger] cs[i], a)
    }

    /// The order graceful shutdown issues stop signals in: clusters strictly
    /// in reverse creation order, then — a documented choice the observed
    /// contract leaves open — the ungrouped actors, last.
    pub open spec fn shutdown_order(self) -> Seq<AbstractAddress> {
        Node::rev_cluster_views(self.clusters@, self.clusters@.len() as int)
            + Node::ungrouped_views(self.records@, self.clusters@, self.records@.len() as int)
    }

    /// Compute the stop-signal order of a graceful shutdown, without
    /// changing anything.
    pub fn shutdown_order_vec(&self) -> (order: Vec<Address>)
        requires
            self.wf(),
        ensures
            views_of(order@) == self.shutdown_order(),
    {
        let mut out: Vec<Address> = Vec::new();
        let n: usize = self.clusters.len();
        let mut i: usize = 0;
        proof {
            assert(views_of(out@) + Node::rev_cluster_views(self.clusters@, n as int) =~= Node
                ::rev_cluster_views(self.clusters@, n as int));
        }
        while i < n
            invariant
                i <= n,
                n == self.clusters@.len(),
                views_of(out@) + Node::rev_cluster_views(self.clusters@, n - i) == Node
                    ::rev_cluster_views(self.clusters@, n as int),
            decreases n - i,
        {
            let c = &self.clusters[n - 1 - i];
            let ghost entry = views_of(out@);
            proof {
                assert(entry + views_of(c.members@.take(0)) =~= entry);
            }
            let mut j: usize = 0;
            while j < c.members.len()
                invariant
                    j <= c.members@.len(),
                    i < n,
                    n == self.clusters@.len(),
                    c == self.clusters@[n - 1 - i],
                    views_of(out@) == entry + views_of(c.members@.take(j as int)),
                decreases c.members@.len() - j,
            {
                let a = c.members[j].clone();
                proof {
                    crate::address::lemma_views_of_push(out@, a);
                    crate::address::lemma_views_of_push(
                        c.members@.take(j as int),
                        c.members@[j as int],
                    );
                    assert(c.members@.take(j as int).push(c.members@[j as int]) =~= c.members@.take(
                        j + 1,
                    ));
                    assert(entry + views_of(c.members@.take(j + 1)) =~= (entry + views_of(
                        c.members@.take(j as int),
                    )).push(c.members@[j as int]@));
                }
                out.push(a);
                j = j + 1;
            }
            proof {
                assert(c.members@.take(c.members@.len() as int) =~= c.members@);
                // One unfolding: the cluster just appended heads the
                // remaining reverse order.
                assert(Node::rev_cluster_views(self.clusters@, n - i) == views_of(c.members@)
                    + Node::rev_cluster_views(self.clusters@, n - i - 1));
                assert(views_of(out@) + Node::rev_cluster_views(self.clusters@, n - i - 1) =~= entry
                    + Node::rev_cluster_views(self.clusters@, n - i));
            }
            i = i + 1;
        }
        let ghost grouped = views_of(out@);
        proof {
            assert(grouped + Node::rev_cluster_views(self.clusters@, 0) =~= grouped);
            assert(grouped + Node::ungrouped_views(self.records@, self.clusters@, 0) =~= grouped);
        }
        let mut k: usize = 0;
        while k < self.records.len()
            invariant
                k <= self.records@.len(),
                self.wf(),
                views_of(out@) == grouped + Node::ungrouped_views(
                    self.records@,
                    self.clusters@,
                    k as int,
                ),
            decreases self.records@.len() - k,
        {
            let rec = &self.records[k];
            let ghost prim = rec.addresses@[0]@;
            if !self.member_of_any_cluster(&rec.addresses[0]) {
                let a = rec.addresses[0].clone();
                proof {
                    crate::address::lemma_views_of_push(out@, a);
                    assert(!Node::clusters_contain(self.clusters@, prim));
                    assert(Node::ungrouped_views(self.records@, self.clusters@, k + 1) =~= Node
                        ::ungrouped_views(self.records@, self.clusters@, k as int) + seq![prim]);
                    assert(grouped + Node::ungrouped_views(self.records@, self.clusters@, k + 1)
                        =~= views_of(out@).push(prim));
                }
                out.push(a);
            } else {
                proof {
                    assert(Node::clusters_contain(self.clusters@, prim));
                    assert(Node::ungrouped_views(self.records@, self.clusters@, k + 1) =~= Node
                        ::ungrouped_views(self.records@, self.clusters@, k as int));
                }
            }
            k = k + 1;
        }
        proof {
            assert(views_of(out@) =~= self.shutdown_order());
        }
        out
    }

    /// Tear the node down.
    ///
    /// Immediate shutdown abandons everything at once: no stop signal is
    /// delivered, and whatever sits in a mailbox is lost with it — a
    /// deliberate trade-off.  Graceful shutdown issues stop signals cluster
    /// by cluster in reverse creation order (ungrouped actors last), waiting
    /// up to its per-actor budget for each acknowledgment; in this
    /// serialized model every relay acknowledges at once, so the whole
    /// registry drains.  Either way the node ends `Stopped`, with every
    /// record gone and every mailbox closed, and the returned vector lists
    /// the stop signals in the order they were issued.
    /// What tearing the node down leaves behind: a `Stopped` node with an
    /// empty registry, every mailbox closed with its queued envelopes
    /// abandoned in place, and — for a graceful shutdown — the stop signals
    /// issued in reverse cluster creation order.
    pub open spec fn shutdown_post(
        pre: Node,
        kind: ShutdownKind,
        post: Node,
        order: Seq<AbstractAddress>,
    ) -> bool {
        &&& post.state is Stopped
        &&& post.records@.len() == 0
        &&& post.mailboxes@.len() == pre.mailboxes@.len()
        &&& forall|x: int|
            0 <= x < pre.mailboxes@.len() ==> !(#[trigger] post.mailboxes@[x]).open
                && post.mailboxes@[x].queue@ == pre.mailboxes@[x].queue@
        &&& post.clusters@ == pre.clusters@
        &&& post.type_routers@ == pre.type_routers@
        &&& post.next_fresh == pre.next_fresh
        &&& (kind is Immediate ==> order.len() == 0)
        &&& (kind is Graceful ==> order == pre.shutdown_order())
    }

    pub fn shutdown(&mut self, kind: ShutdownKind) -> (order: Vec<Address>)
        requires
            old(self).wf(),
        ensures
            final (self).wf(),
            Node::shutdown_post(*old(self), kind, *final (self), views_of(order@)),
    {
        let order: Vec<Address> = match kind {
            ShutdownKind::Immediate => Vec::new(),
            ShutdownKind::Graceful(_) => {
                self.state = NodeState::Stopping;
                self.shutdown_order_vec()
            },
        };
        let ghost pre = *self;
        let mut i: usize = 0;
        while i < self.mailboxes.len()
            invariant
                i <= self.mailboxes@.len(),
                self.mailboxes@.len() == pre.mailboxes@.len(),
                self.records@ == pre.records@,
                self.state == pre.state,
                self.clusters@ == pre.clusters@,
                self.type_routers@ == pre.type_routers@,
                self.next_fresh == pre.next_fresh,
                forall|x: int|
                    0 <= x < i ==> !(#[trigger] self.mailboxes@[x]).open && self.mailboxes@[x].queue@
                        == pre.mailboxes@[x].queue@,
                forall|x: int|
                    i <= x < pre.mailboxes@.len() ==> #[trigger] self.mailboxes@[x]
                        == pre.mailboxes@[x],
            decreases self.mailboxes@.len() - i,
        {
            let mut mb = self.mailboxes.remove(i);
            mb.open = false;
            self.mailboxes.insert(i, mb);
            i = i + 1;
        }
        self.records = Vec::new();
        self.state = NodeState::Stopped;
        order
    }
}

/// One base-256 digit per position: the `k` little-endian digits of `x`.
pub open spec fn le_digits(x: nat, k: nat) -> Seq<u8>
    decreases k,
{
    if k == 0 {
        Seq::empty()
    } else {
        seq![(x % 256) as u8] + le_digits(x / 256, (k - 1) as nat)
    }
}

/// `256^k`.
pub open spec fn pow256(k: nat) -> nat
    decreases k,
{
    if k == 0 {
        1nat
    } else {
        256 * pow256((k - 1) as nat)
    }
}

/// The value a little-endian digit sequence stands for.
pub open spec fn le_value(s: Seq<u8>) -> nat
    decreases s.len(),
{
    if s.len() == 0 {
        0nat
    } else {
        s[0] as nat + 256 * le_value(s.drop_first())
    }
}

/// The identifier bytes of the fresh address minted from counter value `x`.
pub open spec fn fresh_address_data(x: u64) -> Seq<u8> {
    le_digits(x as nat, 8)
}

/// The fresh local address minted from counter value `x`.
pub open spec fn fresh_address(x: u64) -> AbstractAddress {
    AbstractAddress { tt: LOCAL, data: fresh_address_data(x) }
}

/// Writing one more digit appends it at the end of the sequence.
proof fn lemma_le_digits_snoc(x: nat, k: nat)
    ensures
        le_digits(x, (k + 1) as nat) =~= le_digits(x, k).push(((x / pow256(k)) % 256) as u8),
    decreases k,
{
    if k == 0 {
        assert(pow256(0) == 1);
        assert(x / 1 == x) by (nonlinear_arith);
        assert(le_digits(x / 256, 0) == Seq::<u8>::empty());
        assert(le_digits(x, 1) == seq![(x % 256) as u8] + le_digits(x / 256, 0));
        assert(le_digits(x, 1) =~= Seq::empty().push((x % 256) as u8));
    } else {
        lemma_le_digits_snoc(x / 256, (k - 1) as nat);
        lemma_pow256_pos((k - 1) as nat);
        vstd::arithmetic::div_mod::lemma_div_denominator(x as int, 256, pow256((k - 1) as nat) as int);
        assert(256 * pow256((k - 1) as nat) == pow256((k - 1) as nat) * 256) by (nonlinear_arith);
        assert((x / 256) / pow256((k - 1) as nat) == x / pow256(k));
        assert(le_digits(x, (k + 1) as nat) =~= seq![(x % 256) as u8] + le_digits(
            x / 256,
            k,
        ));
        assert(le_digits(x, k) =~= seq![(x % 256) as u8] + le_digits(x / 256, (k - 1) as nat));
        assert(seq![(x % 256) as u8] + le_digits(x / 256, (k - 1) as nat).push(
            (((x / 256) / pow256((k - 1) as nat)) % 256) as u8,
        ) =~= (seq![(x % 256) as u8] + le_digits(x / 256, (k - 1) as nat)).push(
            ((x / pow256(k)) % 256) as u8,
        ));
    }
}

/// The digit sequence of `x` evaluates back to `x` modulo `256^k`.
proof fn lemma_le_digits_value(x: nat, k: nat)
    ensures
        le_value(le_digits(x, k)) == x % pow256(k),
    decreases k,
{
    if k == 0 {
        assert(x % 1 == 0) by (nonlinear_arith);
    } else {
        lemma_le_digits_value(x / 256, (k - 1) as nat);
        assert(pow256((k - 1) as nat) > 0) by {
            lemma_pow256_pos((k - 1) as nat);
        }
        let s = le_digits(x, k);
        assert(s.drop_first() =~= le_digits(x / 256, (k - 1) as nat));
        assert(s[0] == (x % 256) as u8);
        vstd::arithmetic::div_mod::lemma_mod_breakdown(
            x as int,
            256,
            pow256((k - 1) as nat) as int,
        );
        assert(le_value(s) == x % 256 + 256 * ((x / 256) % pow256((k - 1) as nat)));
    }
}

/// `256^k` is positive.
proof fn lemma_pow256_pos(k: nat)
    ensures
        pow256(k) >= 1,
    decreases k,
{
    if k > 0 {
        lemma_pow256_pos((k - 1) as nat);
    }
}

/// Distinct counter values mint distinct fresh addresses.
pub proof fn lemma_fresh_address_injective(x: u64, y: u64)
    requires
        x != y,
    ensures
        fresh_address(x) != fresh_address(y),
        fresh_address_data(x) != fresh_address_data(y),
{
    if fresh_address_data(x) == fresh_address_data(y) {
        lemma_le_digits_value(x as nat, 8);
        lemma_le_digits_value(y as nat, 8);
        assert(pow256(8) == 0x1_0000_0000_0000_0000) by {
            reveal_with_fuel(pow256, 9);
        }
        vstd::arithmetic::div_mod::lemma_small_mod(x as nat, pow256(8));
        vstd::arithmetic::div_mod::lemma_small_mod(y as nat, pow256(8));
        assert(false);
    }
}

impl Node {
    /// The counter value after one mint: one up, wrapping at the top.
    pub open spec fn next_counter(c: u64) -> u64 {
        if c == u64::MAX {
            0u64
        } else {
            (c + 1) as u64
        }
    }

    /// Mint a fresh ephemeral address from the node's counter.
    ///
    /// The running system draws such addresses at random; the serialized
    /// model mints them deterministically instead.  Nothing here promises
    /// the minted address is unused — a caller that registers it learns of a
    /// collision from the start request, exactly as a random address would
    /// collide — but two mints never return the same address until the
    /// counter wraps around.
    pub fn mint_fresh_address(&mut self) -> (r: Address)
        ensures
            r@ == fresh_address(old(self).next_fresh),
            final (self).next_fresh == Node::next_counter(old(self).next_fresh),
            final (self).records@ == old(self).records@,
            final (self).mailboxes@ == old(self).mailboxes@,
            final (self).clusters@ == old(self).clusters@,
            final (self).type_routers@ == old(self).type_routers@,
            final (self).state == old(self).state,
            old(self).wf() ==> final (self).wf(),
    {
        let x: u64 = self.next_fresh;
        self.next_fresh = if x == u64::MAX {
            0
        } else {
            x + 1
        };
        let mut data: Vec<u8> = Vec::new();
        let mut y: u64 = x;
        let mut i: usize = 0;
        // Eight base-256 digits of the counter, least significant first.
        proof {
            assert(data@ =~= le_digits(x as nat, 0));
            assert(y as nat == x as nat / pow256(0)) by {
                assert(pow256(0) == 1);
                assert(x as nat / 1 == x as nat) by (nonlinear_arith);
            }
        }
        while i < 8
            invariant
                i <= 8,
                data@ == le_digits(x as nat, i as nat),
                y as nat == x as nat / pow256(i as nat),
            decreases 8 - i,
        {
            let d: u8 = (y % 256) as u8;
            proof {
                lemma_le_digits_snoc(x as nat, i as nat);
                lemma_pow256_pos(i as nat);
                vstd::arithmetic::div_mod::lemma_div_denominator(
                    x as int,
                    pow256(i as nat) as int,
                    256,
                );
                assert(pow256(i as nat) * 256 == 256 * pow256(i as nat)) by (nonlinear_arith);
                assert((y as nat) / 256 == x as nat / pow256((i + 1) as nat));
            }
            data.push(d);
            y = y / 256;
            i = i + 1;
        }
        Address { tt: LOCAL, data }
    }
}

/// A lifecycle request, as a context puts it on the router's control
/// channel: a closed set of requests, each answered exactly once.
///
/// Contexts call the node's methods directly in this serialized model;
/// this type is the wire form of those calls, and
/// [`Node::handle_node_message`] serves one of them the way the router's
/// own queue loop would.
pub enum NodeMessage {
    /// Start a worker owning the whole address set; detached for a bare
    /// context without a relay loop of its own.
    StartWorker { addresses: Vec<Address>, detached: bool },
    /// Start a processor at a single address.
    StartProcessor { address: Address },
    /// Stop the worker owning the address.
    StopWorker { address: Address },
    /// Stop the processor owning the address.
    StopProcessor { address: Address },
    /// Resolve a sender for the address.
    SenderReq { address: Address },
    /// Bind a protocol router to a transport type tag.
    Router { tt: u8, address: Address },
    /// Assign the address to the named cluster.
    SetCluster { address: Address, label: Vec<u8> },
    /// Snapshot the registry's keys.
    ListWorkers,
    /// Report the address's actor as initialized.
    SetReady { address: Address },
    /// Ask whether the address's actor is ready.
    CheckReady { address: Address },
    /// Tear the node down.
    StopNode { kind: ShutdownKind },
    /// A relay's acknowledgment that its actor stopped.
    StopAck { address: Address },
}

/// The router's reply to one lifecycle request.
pub enum NodeReply {
    /// A start request was committed; the new mailbox index.
    Started { endpoint: usize },
    /// The request was served.
    Accepted,
    /// The registry snapshot.
    Workers(Vec<Address>),
    /// A resolved delivery endpoint.
    Sender { addr: Address, endpoint: usize, needs_wrapping: bool },
    /// Whether the asked-for address is ready.
    Ready(bool),
    /// Shutdown finished; the stop signals issued, in order.
    NodeStopped(Vec<Address>),
    /// The request failed.
    Failed(Error),
}

/// A start reply as the result the start request contract speaks of.
pub open spec fn reply_as_start_result(r: NodeReply) -> Result<usize, Error> {
    match r {
        NodeReply::Started { endpoint } => Ok(endpoint),
        NodeReply::Failed(e) => Err(e),
        _ => Ok(0),
    }
}

/// A plain acknowledgment reply as the result its request contract speaks
/// of.
pub open spec fn reply_as_unit_result(r: NodeReply) -> Result<(), Error> {
    match r {
        NodeReply::Accepted => Ok(()),
        NodeReply::Failed(e) => Err(e),
        _ => Ok(()),
    }
}

impl Node {
    /// Serve one lifecycle request, as the router's serialized queue loop
    /// would, and answer it — every request, exactly once.
    pub fn handle_node_message(&mut self, msg: NodeMessage) -> (reply: NodeReply)
        requires
            old(self).wf(),
            msg matches NodeMessage::StartWorker { addresses, .. } ==> addresses@.len() > 0,
        ensures
            final (self).wf(),
            match msg {
                NodeMessage::StartWorker { addresses, detached } => (reply is Started || reply
                    is Failed) && Node::start_post(
                    *old(self),
                    addresses@,
                    AddressType::Worker,
                    detached,
                    *final (self),
                    reply_as_start_result(reply),
                ),
                NodeMessage::StartProcessor { address } => (reply is Started || reply is Failed)
                    && Node::start_post(
                    *old(self),
                    seq![address],
                    AddressType::Processor,
                    false,
                    *final (self),
                    reply_as_start_result(reply),
                ),
                NodeMessage::StopWorker { address } => (reply is Accepted || reply is Failed)
                    && Node::stop_post(
                    *old(self),
                    address@,
                    AddressType::Worker,
                    *final (self),
                    reply_as_unit_result(reply),
                ),
                NodeMessage::StopProcessor { address } => (reply is Accepted || reply is Failed)
                    && Node::stop_post(
                    *old(self),
                    address@,
                    AddressType::Processor,
                    *final (self),
                    reply_as_unit_result(reply),
                ),
                NodeMessage::SenderReq { address } => *final (self) == *old(self) && (match old(
                    self,
                ).resolve_spec(address@) {
                    Some((ra, ep, w)) => reply matches NodeReply::Sender {
                        addr,
                        endpoint,
                        needs_wrapping,
                    } && addr@ == ra && endpoint as int == ep && needs_wrapping == w,
                    None => reply == NodeReply::Failed(Error::AddressUnknown),
                }),
                NodeMessage::Router { tt, address } => (reply is Accepted || reply is Failed)
                    && Node::register_type_post(
                    *old(self),
                    tt,
                    address@,
                    *final (self),
                    reply_as_unit_result(reply),
                ),
                NodeMessage::SetCluster { address, label } => (reply is Accepted || reply
                    is Failed) && Node::set_cluster_post(
                    *old(self),
                    address@,
                    label@,
                    *final (self),
                    reply_as_unit_result(reply),
                ),
                NodeMessage::ListWorkers => *final (self) == *old(self) && (
                reply matches NodeReply::Workers(w) && views_of(w@) == Node::all_addr_views(
                    old(self).records@,
                )),
                NodeMessage::SetReady { address } => (reply is Accepted || reply is Failed)
                    && Node::set_ready_post(
                    *old(self),
                    address@,
                    *final (self),
                    reply_as_unit_result(reply),
                ),
                NodeMessage::CheckReady { address } => *final (self) == *old(self) && (if old(
                    self,
                ).owns_addr(address@) {
                    reply == NodeReply::Ready(
                        old(self).records@[old(self).owner_index(address@)].ready,
                    )
                } else {
                    reply == NodeReply::Failed(Error::NotFound)
                }),
                NodeMessage::StopNode { kind } => reply matches NodeReply::NodeStopped(order)
                    && Node::shutdown_post(*old(self), kind, *final (self), views_of(order@)),
                NodeMessage::StopAck { .. } => *final (self) == *old(self) && reply is Accepted,
            },
    {
        match msg {
            NodeMessage::StartWorker { addresses, detached } => {
                match self.start(addresses, AddressType::Worker, detached) {
                    Ok(endpoint) => NodeReply::Started { endpoint },
                    Err(e) => NodeReply::Failed(e),
                }
            },
            NodeMessage::StartProcessor { address } => {
                let mut addresses: Vec<Address> = Vec::new();
                addresses.push(address);
                proof {
                    assert(addresses@ =~= seq![address]);
                }
                match self.start(addresses, AddressType::Processor, false) {
                    Ok(endpoint) => NodeReply::Started { endpoint },
                    Err(e) => NodeReply::Failed(e),
                }
            },
            NodeMessage::StopWorker { address } => {
                match self.stop(&address, AddressType::Worker) {
                    Ok(()) => NodeReply::Accepted,
                    Err(e) => NodeReply::Failed(e),
                }
            },
            NodeMessage::StopProcessor { address } => {
                match self.stop(&address, AddressType::Processor) {
                    Ok(()) => NodeReply::Accepted,
                    Err(e) => NodeReply::Failed(e),
                }
            },
            NodeMessage::SenderReq { address } => {
                match self.resolve(&address) {
                    Ok((addr, endpoint, needs_wrapping)) => NodeReply::Sender {
                        addr,
                        endpoint,
                        needs_wrapping,
                    },
                    Err(e) => NodeReply::Failed(e),
                }
            },
            NodeMessage::Router { tt, address } => {
                match self.register_type(tt, address) {
                    Ok(()) => NodeReply::Accepted,
                    Err(e) => NodeReply::Failed(e),
                }
            },
            NodeMessage::SetCluster { address, label } => {
                match self.set_cluster(&address, label) {
                    Ok(()) => NodeReply::Accepted,
                    Err(e) => NodeReply::Failed(e),
                }
            },
            NodeMessage::ListWorkers => NodeReply::Workers(self.list_workers()),
            NodeMessage::SetReady { address } => {
                match self.set_ready(&address) {
                    Ok(()) => NodeReply::Accepted,
                    Err(e) => NodeReply::Failed(e),
                }
            },
            NodeMessage::CheckReady { address } => {
                match self.ready_state(&address) {
                    Ok(ready) => NodeReply::Ready(ready),
                    Err(e) => NodeReply::Failed(e),
                }
            },
            NodeMessage::StopNode { kind } => NodeReply::NodeStopped(self.shutdown(kind)),
            // Stops complete synchronously in the serialized model, so the
            // acknowledgment is pure bookkeeping.
            NodeMessage::StopAck { .. } => NodeReply::Accepted,
        }
    }
}

} // verus!
