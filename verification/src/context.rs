use vstd::prelude::*;
use crate::access::{AccessControl, AllowAll};
use crate::address::{clone_addresses, views_of, AbstractAddress, Address};
use crate::error::Error;
use crate::message::{Payload, RelayMessage, RelayPayload, Routed, TransportMessage};
use crate::node::{fresh_address, rec_owns, ActorRecord, AddressType, Node, ShutdownKind};
use crate::route::Route;

verus! {

/// The default timeout for a bounded receive, in seconds.
pub const DEFAULT_TIMEOUT: u64 = 30;

/// The handle an actor (or the supervising code that spawns actors) uses to
/// talk to the routing fabric: it sends messages, receives from its own
/// mailbox, and asks the router for lifecycle changes.
///
/// A context never touches the registry itself.  In the running system every
/// call below becomes a request on the router's control channel, answered on
/// a one-shot reply channel; the serialized model makes the same request as
/// a direct call on the [`Node`].
pub struct Context<P: AccessControl> {
    /// The actor's address set: non-empty, first address primary.
    pub addresses: Vec<Address>,
    /// The index of the actor's own mailbox.
    pub endpoint: usize,
    /// The policy consulted once per inbound direct payload.
    pub access_control: P,
}

/// Whether the address value is one of the context's own.
pub open spec fn ctx_owns(addrs: Seq<Address>, a: AbstractAddress) -> bool {
    exists|j: int| 0 <= j < addrs.len() && addrs[j]@ == a
}

/// The transport message inside an envelope, whichever way it is tagged.
pub open spec fn envelope_transport(m: RelayMessage) -> TransportMessage {
    match m.data {
        RelayPayload::Direct(t) => t,
        RelayPayload::PreRouter(t) => t,
    }
}

/// What the envelope a resolution-and-delivery step enqueues looks like:
/// addressed to the resolved address, tagged by the wrapping flag, carrying
/// the payload with the given onward and return routes.
pub open spec fn delivered_envelope(
    m: RelayMessage,
    ra: AbstractAddress,
    wrap: bool,
    route_v: Seq<AbstractAddress>,
    ret_v: Seq<AbstractAddress>,
    payload: Payload,
) -> bool {
    &&& m.addr@ == ra
    &&& (if wrap {
        m.data is PreRouter
    } else {
        m.data is Direct
    })
    &&& envelope_transport(m).onward_route@ == route_v
    &&& envelope_transport(m).return_route@ == ret_v
    &&& envelope_transport(m).payload == payload
}

/// One envelope appended to the mailbox at `ep`; everything else unchanged.
pub open spec fn delivered_to(
    pre: Node,
    post: Node,
    ep: int,
    ra: AbstractAddress,
    wrap: bool,
    route_v: Seq<AbstractAddress>,
    ret_v: Seq<AbstractAddress>,
    payload: Payload,
) -> bool {
    &&& 0 <= ep < pre.mailboxes@.len()
    &&& post.mailboxes@.len() == pre.mailboxes@.len()
    &&& post.mailboxes@[ep].open == pre.mailboxes@[ep].open
    &&& post.mailboxes@[ep].queue@.len() == pre.mailboxes@[ep].queue@.len() + 1
    &&& post.mailboxes@[ep].queue@.take(pre.mailboxes@[ep].queue@.len() as int)
        == pre.mailboxes@[ep].queue@
    &&& delivered_envelope(post.mailboxes@[ep].queue@.last(), ra, wrap, route_v, ret_v, payload)
    &&& forall|x: int|
        0 <= x < pre.mailboxes@.len() && x != ep ==> post.mailboxes@[x] == pre.mailboxes@[x]
    &&& post.records@ == pre.records@
    &&& post.clusters@ == pre.clusters@
    &&& post.type_routers@ == pre.type_routers@
    &&& post.state == pre.state
    &&& post.next_fresh == pre.next_fresh
}

/// The effect of resolving `target` and delivering a payload to it: failure
/// with `AddressUnknown` and no change exactly when resolution fails, one
/// envelope in the resolved mailbox otherwise.
pub open spec fn send_effect(
    pre: Node,
    target: AbstractAddress,
    route_v: Seq<AbstractAddress>,
    ret_v: Seq<AbstractAddress>,
    payload: Payload,
    post: Node,
    r: Result<(), Error>,
) -> bool {
    match pre.resolve_spec(target) {
        None => r == Err::<(), Error>(Error::AddressUnknown) && post == pre,
        Some((ra, ep, wrap)) => r == Ok::<(), Error>(()) && delivered_to(
            pre,
            post,
            ep,
            ra,
            wrap,
            route_v,
            ret_v,
            payload,
        ),
    }
}

/// A condition a selective receive waits for, chosen per call — the same
/// narrow-capability pattern as [`AccessControl`]: implementers state in
/// `matches` what they select and the executable check must agree.
pub trait MessagePredicate: Sized {
    /// What the predicate selects.
    spec fn matches(&self, body: &Vec<u8>) -> bool;

    /// Decide whether a message body is selected.
    fn check(&self, body: &Vec<u8>) -> (r: bool)
        ensures
            r == self.matches(body),
    ;
}

/// The predicate that selects every message.
pub struct MatchAny;

impl MessagePredicate for MatchAny {
    open spec fn matches(&self, body: &Vec<u8>) -> bool {
        true
    }

    fn check(&self, body: &Vec<u8>) -> (r: bool)
        ensures
            r == self.matches(body),
    {
        true
    }
}

/// The predicate that selects no message.
pub struct MatchNone;

impl MessagePredicate for MatchNone {
    open spec fn matches(&self, body: &Vec<u8>) -> bool {
        false
    }

    fn check(&self, body: &Vec<u8>) -> (r: bool)
        ensures
            r == self.matches(body),
    {
        false
    }
}

/// The predicate that selects one exact body.
pub struct MatchEquals {
    /// The body selected.
    pub expected: Vec<u8>,
}

impl MessagePredicate for MatchEquals {
    open spec fn matches(&self, body: &Vec<u8>) -> bool {
        body@ == self.expected@
    }

    fn check(&self, body: &Vec<u8>) -> (r: bool)
        ensures
            r == self.matches(body),
    {
        crate::address::bytes_eq(body, &self.expected)
    }
}

/// Whether a payload decodes as the requested message type and passes the
/// predicate.
pub open spec fn wanted<M: MessagePredicate>(p: Payload, mtype: u32, check: M) -> bool {
    match p {
        Payload::User { mtype: mt, body } => mt == mtype && check.matches(&body),
        _ => false,
    }
}

/// A route with its first hop consumed (an exhausted route stays exhausted).
pub open spec fn stepped(v: Seq<AbstractAddress>) -> Seq<AbstractAddress> {
    if v.len() > 0 {
        v.drop_first()
    } else {
        v
    }
}

/// Whether two envelopes carry the same addressing and the same message.
pub open spec fn rm_like(a: RelayMessage, b: RelayMessage) -> bool {
    a.addr@ == b.addr@ && a.data == b.data
}

/// Whether two queues carry the same envelopes in the same order.
pub open spec fn queue_like(a: Seq<RelayMessage>, b: Seq<RelayMessage>) -> bool {
    a.len() == b.len() && forall|i: int| 0 <= i < a.len() ==> rm_like(#[trigger] a[i], b[i])
}

/// Whether a skipped envelope can be requeued at all: its onward route
/// still names a next hop, and that hop resolves.
pub open spec fn can_requeue(n: Node, m: RelayMessage) -> bool {
    envelope_transport(m).onward_route@.len() > 0 && n.resolve_spec(
        envelope_transport(m).onward_route@[0],
    ) is Some
}

/// What a mailbox scan leaves untouched: the registry and the lifecycle
/// state, the openness of every mailbox, and — for every mailbox but the
/// scanner's own — the messages already queued, which the scan can only add
/// to (by requeueing a message routed elsewhere).
pub open spec fn scan_frame<P: AccessControl>(ctx: Context<P>, pre: Node, post: Node) -> bool {
    &&& registry_frame(pre, post)
    &&& post.mailboxes@[ctx.endpoint as int].open == pre.mailboxes@[ctx.endpoint as int].open
    &&& forall|x: int|
        0 <= x < pre.mailboxes@.len() && x != ctx.endpoint as int ==> (#[trigger]
        post.mailboxes@[x]).open == pre.mailboxes@[x].open && pre.mailboxes@[x].queue@.len()
            <= post.mailboxes@[x].queue@.len() && post.mailboxes@[x].queue@.take(
            pre.mailboxes@[x].queue@.len() as int,
        ) == pre.mailboxes@[x].queue@
}

/// What a mailbox scan returns.
///
/// A yielded message decodes as the requested type, passes the predicate,
/// and is one the scanner's mailbox held — same payload and return route,
/// the onward route stepped once.  A scan can fail only with `Timeout` (the
/// mailbox was exhausted without a match), `MailboxClosed` (the actor is
/// gone), or `AddressUnknown` (a skipped message could not be requeued).
/// And when every queued envelope is admitted, routes straight back to this
/// mailbox and fails the match, the scan reports `Timeout` having requeued
/// every message exactly once: the queue is exactly as it was, and no other
/// mailbox was touched.
pub open spec fn scan_outcome<P: AccessControl, M: MessagePredicate>(
    ctx: Context<P>,
    check: M,
    mtype: u32,
    pre: Node,
    post: Node,
    r: Result<Routed, Error>,
) -> bool {
    &&& match r {
        Ok(rt) => wanted(rt.transport.payload, mtype, check) && (exists|k: int|
            0 <= k < pre.mailboxes@[ctx.endpoint as int].queue@.len() && {
                let t = envelope_transport(
                    #[trigger] pre.mailboxes@[ctx.endpoint as int].queue@[k],
                );
                &&& rt.transport.payload == t.payload
                &&& rt.transport.return_route@ == t.return_route@
                &&& rt.transport.onward_route@ == stepped(t.onward_route@)
            }),
        Err(e) => e == Error::Timeout || e == Error::MailboxClosed || e == Error::AddressUnknown,
    }
    &&& (pre.mailboxes@[ctx.endpoint as int].open && (forall|x: int|
        0 <= x < pre.mailboxes@[ctx.endpoint as int].queue@.len() ==> ctx.self_routed(
            pre,
            #[trigger] pre.mailboxes@[ctx.endpoint as int].queue@[x],
        ) && !wanted(
            envelope_transport(pre.mailboxes@[ctx.endpoint as int].queue@[x]).payload,
            mtype,
            check,
        ))) ==> {
        &&& r == Err::<Routed, Error>(Error::Timeout)
        &&& queue_like(
            post.mailboxes@[ctx.endpoint as int].queue@,
            pre.mailboxes@[ctx.endpoint as int].queue@,
        )
        &&& forall|x: int|
            0 <= x < pre.mailboxes@.len() && x != ctx.endpoint as int ==> post.mailboxes@[x]
                == pre.mailboxes@[x]
    }
    // Success is owed: when some queued envelope is admitted and wanted,
    // and every admitted unwanted envelope before it can be requeued, the
    // scan yields a message.
    &&& (pre.mailboxes@[ctx.endpoint as int].open && (exists|x: int|
        0 <= x < pre.mailboxes@[ctx.endpoint as int].queue@.len() && ctx.admits(
            #[trigger] pre.mailboxes@[ctx.endpoint as int].queue@[x],
        ) && wanted(
            envelope_transport(pre.mailboxes@[ctx.endpoint as int].queue@[x]).payload,
            mtype,
            check,
        ) && (forall|y: int|
            0 <= y < x && ctx.admits(#[trigger] pre.mailboxes@[ctx.endpoint as int].queue@[y])
                && !wanted(
                envelope_transport(pre.mailboxes@[ctx.endpoint as int].queue@[y]).payload,
                mtype,
                check,
            ) ==> can_requeue(pre, pre.mailboxes@[ctx.endpoint as int].queue@[y])))) ==> r is Ok
}

/// Popping the front envelope of a rotation of `q` and appending an
/// equivalent of it advances the rotation by one.
proof fn lemma_requeue_rotation(
    q: Seq<RelayMessage>,
    mid: Seq<RelayMessage>,
    newq: Seq<RelayMessage>,
    i: int,
)
    requires
        0 <= i < q.len(),
        queue_like(mid, q.skip(i) + q.take(i)),
        newq.len() == mid.len(),
        forall|t: int| 0 <= t < mid.len() - 1 ==> newq[t] == mid[t + 1],
        rm_like(newq[newq.len() - 1], q[i]),
    ensures
        queue_like(newq, q.skip(i + 1) + q.take(i + 1)),
{
    assert forall|y: int| 0 <= y < newq.len() implies rm_like(
        #[trigger] newq[y],
        (q.skip(i + 1) + q.take(i + 1))[y],
    ) by {
        if y < newq.len() - 1 {
            assert(newq[y] == mid[y + 1]);
            assert(rm_like(mid[y + 1], (q.skip(i as int) + q.take(i as int))[y + 1]));
            if y + 1 < q.len() - i {
                assert((q.skip(i as int) + q.take(i as int))[y + 1] == q[i + y + 1]);
                assert((q.skip(i + 1) + q.take(i + 1))[y] == q[i + y + 1]);
            } else {
                assert((q.skip(i as int) + q.take(i as int))[y + 1] == q[y + 1 - (q.len() - i)]);
                assert((q.skip(i + 1) + q.take(i + 1))[y] == q[y + 1 - (q.len() - i)]);
            }
        } else {
            assert((q.skip(i + 1) + q.take(i + 1))[y] == q[i as int]);
        }
    }
}

/// Everything of the node but its mailbox contents: the registry, clusters,
/// protocol router bindings, lifecycle state, mint counter, and the number
/// of allocated mailboxes.
pub open spec fn registry_frame(pre: Node, post: Node) -> bool {
    &&& post.records@ == pre.records@
    &&& post.clusters@ == pre.clusters@
    &&& post.type_routers@ == pre.type_routers@
    &&& post.state == pre.state
    &&& post.next_fresh == pre.next_fresh
    &&& post.mailboxes@.len() == pre.mailboxes@.len()
}

/// Resolution depends on the registry and the router bindings alone.
pub proof fn lemma_resolve_frame(n1: Node, n2: Node, a: AbstractAddress)
    requires
        n1.wf(),
        n2.wf(),
        n1.records@ == n2.records@,
        n1.type_routers@ == n2.type_routers@,
    ensures
        n1.resolve_spec(a) == n2.resolve_spec(a),
{
    assert(n1.owns_addr(a) == n2.owns_addr(a)) by {
        if n1.owns_addr(a) {
            let i = n1.owner_index(a);
            assert(rec_owns(n2.records@[i], a));
            assert(n2.owns_addr(a));
        }
        if n2.owns_addr(a) {
            let i = n2.owner_index(a);
            assert(rec_owns(n1.records@[i], a));
            assert(n1.owns_addr(a));
        }
    }
    if n1.owns_addr(a) {
        n2.lemma_owner_is(a, n1.owner_index(a));
    }
    assert(n1.has_type_router(a.tt) == n2.has_type_router(a.tt)) by {
        if n1.has_type_router(a.tt) {
            let i = n1.type_router_index(a.tt);
            assert(n2.type_routers@[i].tt == a.tt);
            assert(n2.has_type_router(a.tt));
        }
        if n2.has_type_router(a.tt) {
            let i = n2.type_router_index(a.tt);
            assert(n1.type_routers@[i].tt == a.tt);
            assert(n1.has_type_router(a.tt));
        }
    }
    if n1.has_type_router(a.tt) {
        n2.lemma_type_router_is(a.tt, n1.type_router_index(a.tt));
        let ra = n1.type_router_addr(a.tt);
        assert(n1.owns_addr(ra) == n2.owns_addr(ra)) by {
            if n1.owns_addr(ra) {
                let i = n1.owner_index(ra);
                assert(rec_owns(n2.records@[i], ra));
            }
            if n2.owns_addr(ra) {
                let i = n2.owner_index(ra);
                assert(rec_owns(n1.records@[i], ra));
            }
        }
        if n1.owns_addr(ra) {
            n2.lemma_owner_is(ra, n1.owner_index(ra));
        }
    }
}

impl<P: AccessControl> Context<P> {
    /// Whether the context is a live handle into the node: a non-empty
    /// address set and a mailbox index the node has allocated.
    pub open spec fn valid_for(self, n: Node) -> bool {
        self.addresses@.len() > 0 && (self.endpoint as int) < n.mailboxes@.len()
    }

    /// Whether the context's policy lets an envelope through to the actor:
    /// direct payloads pass the access-control check, envelopes awaiting
    /// re-addressing by a protocol router are not checked here.
    pub open spec fn admits(self, m: RelayMessage) -> bool {
        match m.data {
            RelayPayload::Direct(t) => self.access_control.allows(&t),
            RelayPayload::PreRouter(_) => true,
        }
    }

    /// Build a context from its parts.
    pub fn new(addresses: Vec<Address>, endpoint: usize, access_control: P) -> (r: Context<P>)
        requires
            addresses@.len() > 0,
        ensures
            r == (Context { addresses, endpoint, access_control }),
    {
        Context { addresses, endpoint, access_control }
    }

    /// The primary address: the actor's identity for cluster membership and
    /// return routing.
    pub fn address(&self) -> (r: Address)
        requires
            self.addresses@.len() > 0,
        ensures
            r@ == self.addresses@[0]@,
    {
        self.addresses[0].clone()
    }

    /// Every address but the primary one: aliases of the same mailbox.
    pub fn aliases(&self) -> (r: Vec<Address>)
        requires
            self.addresses@.len() > 0,
        ensures
            views_of(r@) == views_of(self.addresses@).drop_first(),
    {
        let mut out: Vec<Address> = Vec::new();
        proof {
            assert(views_of(out@) =~= views_of(self.addresses@).subrange(1, 1));
        }
        let mut i: usize = 1;
        while i < self.addresses.len()
            invariant
                1 <= i <= self.addresses@.len(),
                views_of(out@) == views_of(self.addresses@).subrange(1, i as int),
            decreases self.addresses@.len() - i,
        {
            let a = self.addresses[i].clone();
            proof {
                crate::address::lemma_views_of_push(out@, a);
                assert(views_of(self.addresses@).subrange(1, i as int).push(
                    self.addresses@[i as int]@,
                ) =~= views_of(self.addresses@).subrange(1, i + 1));
            }
            out.push(a);
            i = i + 1;
        }
        proof {
            assert(views_of(self.addresses@).subrange(1, self.addresses@.len() as int)
                =~= views_of(self.addresses@).drop_first());
        }
        out
    }

    /// Replace the context's access-control policy.
    pub fn set_access_control(&mut self, access_control: P)
        ensures
            final (self).addresses@ == old(self).addresses@,
            final (self).endpoint == old(self).endpoint,
            final (self).access_control == access_control,
    {
        self.access_control = access_control;
    }

    /// Check whether the context owns the address.
    fn owns(&self, a: &Address) -> (r: bool)
        ensures
            r == ctx_owns(self.addresses@, a@),
    {
        let mut j: usize = 0;
        while j < self.addresses.len()
            invariant
                j <= self.addresses@.len(),
                forall|j2: int| 0 <= j2 < j ==> self.addresses@[j2]@ != a@,
            decreases self.addresses@.len() - j,
        {
            if self.addresses[j].addr_eq(a) {
                return true;
            }
            j = j + 1;
        }
        false
    }

    /// Send a message along a route: resolve the first hop, pack the payload
    /// with the route and a return route of the sending address alone, and
    /// enqueue it at the resolved mailbox — wrapped for the protocol router
    /// if the resolution says so.
    ///
    /// The router is consulted for the resolution only; delivery goes
    /// directly into the destination's mailbox.
    pub fn send(&self, node: &mut Node, route: Route, payload: Payload) -> (r: Result<(), Error>)
        requires
            old(node).wf(),
            self.addresses@.len() > 0,
            route@.len() > 0,
        ensures
            final (node).wf(),
            send_effect(
                *old(node),
                route@[0],
                route@,
                seq![self.addresses@[0]@],
                payload,
                *final (node),
                r,
            ),
    {
        let sending_address = self.address();
        proof {
            assert(self.addresses@[0]@ == sending_address@);
            assert(ctx_owns(self.addresses@, sending_address@));
        }
        self.send_from_address(node, route, payload, sending_address)
    }

    /// Send a message along a route from one of the context's own addresses
    /// (the primary or an alias); a sending address the context does not own
    /// is rejected.
    pub fn send_from_address(
        &self,
        node: &mut Node,
        route: Route,
        payload: Payload,
        sending_address: Address,
    ) -> (r: Result<(), Error>)
        requires
            old(node).wf(),
            route@.len() > 0,
        ensures
            final (node).wf(),
            !ctx_owns(self.addresses@, sending_address@) ==> r == Err::<(), Error>(
                Error::InvalidAddress,
            ) && *final (node) == *old(node),
            ctx_owns(self.addresses@, sending_address@) ==> send_effect(
                *old(node),
                route@[0],
                route@,
                seq![sending_address@],
                payload,
                *final (node),
                r,
            ),
    {
        if !self.owns(&sending_address) {
            return Err(Error::InvalidAddress);
        }
        let next = match route.next() {
            Some(a) => a.clone(),
            None => {
                return Err(Error::AddressUnknown);
            },
        };
        match node.resolve(&next) {
            Err(_) => Err(Error::AddressUnknown),
            Ok((ra, ep, wrap)) => {
                let mut return_route = Route::new();
                return_route.append(sending_address);
                let tm = TransportMessage { onward_route: route, return_route, payload };
                let rm = if wrap {
                    RelayMessage::pre_router(ra, tm)
                } else {
                    RelayMessage::direct(ra, tm)
                };
                match node.deliver(ep, rm) {
                    Ok(()) => {
                        proof {
                            assert(node.mailboxes@[ep as int].queue@.take(
                                old(node).mailboxes@[ep as int].queue@.len() as int,
                            ) =~= old(node).mailboxes@[ep as int].queue@);
                        }
                        Ok(())
                    },
                    Err(_) => Err(Error::MailboxClosed),
                }
            },
        }
    }

    /// Wait for the next envelope the access-control policy admits.
    ///
    /// Unauthorized direct payloads are dropped — recovered locally, never
    /// surfaced to the sender — and the scan goes on.  A closed mailbox
    /// yields `Ok(None)`; an exhausted one stands for a wait nothing can
    /// wake in the serialized model and reports `Timeout`.
    pub fn mailbox_next(&self, node: &mut Node) -> (r: Result<Option<RelayMessage>, Error>)
        requires
            old(node).wf(),
            self.valid_for(*old(node)),
        ensures
            final (node).wf(),
            registry_frame(*old(node), *final (node)),
            forall|x: int|
                0 <= x < old(node).mailboxes@.len() && x != self.endpoint as int ==> final (
                node).mailboxes@[x] == old(node).mailboxes@[x],
            final (node).mailboxes@[self.endpoint as int].open == old(
                node,
            ).mailboxes@[self.endpoint as int].open,
            !old(node).mailboxes@[self.endpoint as int].open ==> r == Ok::<
                Option<RelayMessage>,
                Error,
            >(None) && *final (node) == *old(node),
            old(node).mailboxes@[self.endpoint as int].open ==> {
                let q = old(node).mailboxes@[self.endpoint as int].queue@;
                match r {
                    Ok(Some(m)) => exists|k: int|
                        0 <= k < q.len() && #[trigger] q[k] == m && self.admits(m) && (forall|x: int|
                            0 <= x < k ==> !self.admits(#[trigger] q[x])) && final (
                        node).mailboxes@[self.endpoint as int].queue@ == q.skip(k + 1),
                    Ok(None) => false,
                    Err(e) => e == Error::Timeout && (forall|x: int|
                        0 <= x < q.len() ==> !self.admits(#[trigger] q[x])) && final (
                    node).mailboxes@[self.endpoint as int].queue@.len() == 0,
                }
            },
    {
        let ep = self.endpoint;
        if !node.mailbox_open(ep) {
            return Ok(None);
        }
        let qlen: usize = node.mailboxes[ep].queue.len();
        let ghost q = node.mailboxes@[ep as int].queue@;
        let mut g_exec: usize = 0;
        while g_exec < qlen
            invariant
                node.wf(),
                (ep as int) < node.mailboxes@.len(),
                ep == self.endpoint,
                registry_frame(*old(node), *node),
                forall|x: int|
                    0 <= x < old(node).mailboxes@.len() && x != ep as int ==> node.mailboxes@[x]
                        == old(node).mailboxes@[x],
                node.mailboxes@[ep as int].open,
                old(node).mailboxes@[ep as int].open,
                q == old(node).mailboxes@[ep as int].queue@,
                g_exec <= q.len(),
                q.len() == qlen,
                node.mailboxes@[ep as int].queue@ == q.skip(g_exec as int),
                forall|x: int| 0 <= x < g_exec ==> !self.admits(#[trigger] q[x]),
            decreases q.len() - g_exec,
        {
            match node.pop_mailbox(ep) {
                None => {
                    proof {
                        assert(q.skip(g_exec as int).len() == 0);
                        assert(g_exec == q.len());
                    }
                    return Err(Error::Timeout);
                },
                Some(m) => {
                    proof {
                        assert(m == q.skip(g_exec as int)[0]);
                        assert(m == q[g_exec as int]);
                        assert(q.skip(g_exec as int).drop_first() =~= q.skip(g_exec + 1));
                    }
                    let admitted: bool = match &m.data {
                        RelayPayload::Direct(t) => self.access_control.is_authorized(t),
                        RelayPayload::PreRouter(_) => true,
                    };
                    if admitted {
                        return Ok(Some(m));
                    }
                    // The message is dropped; the scan goes on.
                    g_exec = g_exec + 1;
                },
            }
        }
        proof {
            assert(q.skip(g_exec as int).len() == 0);
        }
        Err(Error::Timeout)
    }

    /// Forward a message to its next routing destination: re-resolve the
    /// current onward route's first hop and enqueue the message there,
    /// unchanged.  This is the mechanism under requeueing and under
    /// transport-level hop forwarding alike.
    pub fn forward(&self, node: &mut Node, msg: TransportMessage) -> (r: Result<(), Error>)
        requires
            old(node).wf(),
            msg.onward_route@.len() > 0,
        ensures
            final (node).wf(),
            send_effect(
                *old(node),
                msg.onward_route@[0],
                msg.onward_route@,
                msg.return_route@,
                msg.payload,
                *final (node),
                r,
            ),
            match old(node).resolve_spec(msg.onward_route@[0]) {
                Some((ra, ep, wrap)) => envelope_transport(
                    final (node).mailboxes@[ep].queue@.last(),
                ) == msg,
                None => true,
            },
    {
        let next = match msg.onward_route.next() {
            Some(a) => a.clone(),
            None => {
                return Err(Error::AddressUnknown);
            },
        };
        match node.resolve(&next) {
            Err(_) => Err(Error::AddressUnknown),
            Ok((ra, ep, wrap)) => {
                let rm = if wrap {
                    RelayMessage::pre_router(ra, msg)
                } else {
                    RelayMessage::direct(ra, msg)
                };
                match node.deliver(ep, rm) {
                    Ok(()) => {
                        proof {
                            assert(node.mailboxes@[ep as int].queue@.take(
                                old(node).mailboxes@[ep as int].queue@.len() as int,
                            ) =~= old(node).mailboxes@[ep as int].queue@);
                        }
                        Ok(())
                    },
                    Err(_) => Err(Error::MailboxClosed),
                }
            },
        }
    }

    /// Whether the envelope, requeued from this context's mailbox, lands
    /// straight back in it: a direct payload the policy admits, whose onward
    /// route still begins with an address of this very mailbox.
    pub open spec fn self_routed(self, n: Node, m: RelayMessage) -> bool {
        &&& m.data is Direct
        &&& self.admits(m)
        &&& envelope_transport(m).onward_route@.len() > 0
        &&& n.resolve_spec(envelope_transport(m).onward_route@[0]) == Some(
            (m.addr@, self.endpoint as int, false),
        )
    }

    /// Pull from the own mailbox until a message decodes as the requested
    /// type and passes the predicate; each skipped message is requeued by
    /// re-routing it back through the node, not dropped.
    ///
    /// The scan examines as many envelopes as the mailbox held at the call,
    /// so in the serialized model — where no new message can arrive
    /// meanwhile — an unmatched scan stands for an exhausted timeout.  When
    /// every queued envelope is admitted, routes back to this mailbox and
    /// fails the match, the scan reports `Timeout` with the queue exactly as
    /// it found it, every skipped message requeued once.
    #[verifier::rlimit(100)]
    fn receive_scan<M: MessagePredicate>(&self, node: &mut Node, mtype: u32, check: &M) -> (r:
        Result<Routed, Error>)
        requires
            old(node).wf(),
            self.valid_for(*old(node)),
        ensures
            final (node).wf(),
            self.valid_for(*final (node)),
            scan_frame(*self, *old(node), *final (node)),
            scan_outcome(*self, *check, mtype, *old(node), *final (node), r),
    {
        let ep = self.endpoint;
        let budget: usize = node.mailboxes[ep].queue.len();
        let ghost q = node.mailboxes@[ep as int].queue@;
        let ghost hyp = old(node).mailboxes@[ep as int].open && (forall|x: int|
            0 <= x < q.len() ==> self.self_routed(*old(node), #[trigger] q[x]) && !wanted(
                envelope_transport(q[x]).payload,
                mtype,
                *check,
            ));
        let ghost hyp2 = old(node).mailboxes@[ep as int].open && (exists|x: int|
            0 <= x < q.len() && self.admits(#[trigger] q[x]) && wanted(
                envelope_transport(q[x]).payload,
                mtype,
                *check,
            ) && (forall|y: int|
                0 <= y < x && self.admits(#[trigger] q[y]) && !wanted(
                    envelope_transport(q[y]).payload,
                    mtype,
                    *check,
                ) ==> can_requeue(*old(node), q[y])));
        let ghost x0: int = choose|x: int|
            0 <= x < q.len() && self.admits(#[trigger] q[x]) && wanted(
                envelope_transport(q[x]).payload,
                mtype,
                *check,
            ) && (forall|y: int|
                0 <= y < x && self.admits(#[trigger] q[y]) && !wanted(
                    envelope_transport(q[y]).payload,
                    mtype,
                    *check,
                ) ==> can_requeue(*old(node), q[y]));
        let ghost mut c: int = 0;
        proof {
            if hyp2 {
                assert(node.mailboxes@[ep as int].queue@.subrange(0, x0 + 1) =~= q.subrange(
                    0,
                    x0 + 1,
                ));
            }
        }
        let mut i: usize = 0;
        while i < budget
            invariant
                node.wf(),
                self.valid_for(*node),
                ep == self.endpoint,
                registry_frame(*old(node), *node),
                q == old(node).mailboxes@[ep as int].queue@,
                budget == q.len(),
                i <= budget,
                hyp == (old(node).mailboxes@[ep as int].open && (forall|x: int|
                    0 <= x < q.len() ==> self.self_routed(*old(node), #[trigger] q[x]) && !wanted(
                        envelope_transport(q[x]).payload,
                        mtype,
                        *check,
                    ))),
                node.mailboxes@[ep as int].open == old(node).mailboxes@[ep as int].open,
                forall|x: int|
                    0 <= x < old(node).mailboxes@.len() && x != ep as int ==> (#[trigger]
                    node.mailboxes@[x]).open == old(node).mailboxes@[x].open && old(
                        node,
                    ).mailboxes@[x].queue@.len() <= node.mailboxes@[x].queue@.len()
                        && node.mailboxes@[x].queue@.take(old(node).mailboxes@[x].queue@.len() as int)
                        == old(node).mailboxes@[x].queue@,
                forall|y: int|
                    0 <= y < node.mailboxes@[ep as int].queue@.len() ==> exists|k: int|
                        0 <= k < q.len() && envelope_transport(q[k]) == envelope_transport(
                            #[trigger] node.mailboxes@[ep as int].queue@[y],
                        ),
                hyp ==> queue_like(
                    node.mailboxes@[ep as int].queue@,
                    q.skip(i as int) + q.take(i as int),
                ) && (forall|x: int|
                    0 <= x < old(node).mailboxes@.len() && x != ep as int
                        ==> #[trigger] node.mailboxes@[x] == old(node).mailboxes@[x]),
                hyp2 == (old(node).mailboxes@[ep as int].open && (exists|x: int|
                    0 <= x < q.len() && self.admits(#[trigger] q[x]) && wanted(
                        envelope_transport(q[x]).payload,
                        mtype,
                        *check,
                    ) && (forall|y: int|
                        0 <= y < x && self.admits(#[trigger] q[y]) && !wanted(
                            envelope_transport(q[y]).payload,
                            mtype,
                            *check,
                        ) ==> can_requeue(*old(node), q[y])))),
                hyp2 ==> {
                    &&& 0 <= x0 < q.len()
                    &&& self.admits(q[x0])
                    &&& wanted(envelope_transport(q[x0]).payload, mtype, *check)
                    &&& (forall|y: int|
                        0 <= y < x0 && self.admits(#[trigger] q[y]) && !wanted(
                            envelope_transport(q[y]).payload,
                            mtype,
                            *check,
                        ) ==> can_requeue(*old(node), q[y]))
                    &&& 0 <= c <= x0
                    &&& i as int <= c
                    &&& x0 - c < node.mailboxes@[ep as int].queue@.len()
                    &&& node.mailboxes@[ep as int].queue@.subrange(0, x0 - c + 1) == q.subrange(
                        c,
                        x0 + 1,
                    )
                },
            decreases budget - i,
        {
            let ghost pre_iter = *node;
            match self.mailbox_next(node) {
                Err(e) => {
                    proof {
                        if hyp {
                            let piq = pre_iter.mailboxes@[ep as int].queue@;
                            if piq.len() > 0 {
                                let j: int = if (i as int) < q.len() {
                                    i as int
                                } else {
                                    0
                                };
                                assert(rm_like(piq[0], (q.skip(i as int) + q.take(i as int))[0]));
                                assert((q.skip(i as int) + q.take(i as int))[0] == q[j]);
                                assert(self.self_routed(*old(node), q[j]));
                                assert(!self.admits(piq[0]));
                                assert(false);
                            }
                            assert(q.len() == 0);
                        }
                        if hyp2 {
                            // The wanted envelope was still queued: the
                            // mailbox cannot have been exhausted.
                            assert(pre_iter.mailboxes@[ep as int].queue@.subrange(0, x0 - c + 1)[x0
                                - c] == q.subrange(c, x0 + 1)[x0 - c]);
                            assert(self.admits(pre_iter.mailboxes@[ep as int].queue@[x0 - c]));
                            assert(false);
                        }
                    }
                    return Err(e);
                },
                Ok(None) => {
                    proof {
                        if hyp2 {
                            assert(false);
                        }
                    }
                    return Err(Error::MailboxClosed);
                },
                Ok(Some(m)) => {
                    let ghost kprime: int = choose|k: int|
                        0 <= k < pre_iter.mailboxes@[ep as int].queue@.len() && #[trigger]
                        pre_iter.mailboxes@[ep as int].queue@[k] == m && self.admits(m) && (
                        forall|x: int|
                            0 <= x < k ==> !self.admits(
                                #[trigger] pre_iter.mailboxes@[ep as int].queue@[x],
                            )) && node.mailboxes@[ep as int].queue@
                            == pre_iter.mailboxes@[ep as int].queue@.skip(k + 1);
                    proof {
                        if hyp {
                            assert(self.admits(pre_iter.mailboxes@[ep as int].queue@[0])) by {
                                assert(rm_like(
                                    pre_iter.mailboxes@[ep as int].queue@[0],
                                    (q.skip(i as int) + q.take(i as int))[0],
                                ));
                                assert((q.skip(i as int) + q.take(i as int))[0] == q[i as int]);
                            }
                            assert(kprime == 0);
                        }
                        if hyp2 {
                            // The pop cannot have gone past the wanted
                            // envelope: it is admitted, so it is never in
                            // the dropped prefix.
                            let piq = pre_iter.mailboxes@[ep as int].queue@;
                            assert forall|t: int| 0 <= t <= x0 - c implies piq[t] == q[c + t] by {
                                assert(piq.subrange(0, x0 - c + 1)[t] == q.subrange(c, x0 + 1)[t]);
                            }
                            assert(kprime <= x0 - c) by {
                                if kprime > x0 - c {
                                    assert(self.admits(piq[x0 - c]));
                                    assert(!self.admits(piq[x0 - c]));
                                }
                            }
                            assert(m == q[c + kprime]);
                        }
                    }
                    let RelayMessage { addr, data } = m;
                    let tm = match data {
                        RelayPayload::Direct(t) => t,
                        RelayPayload::PreRouter(t) => t,
                    };
                    let is_match: bool = match &tm.payload {
                        Payload::User { mtype: mt, body } => *mt == mtype && check.check(body),
                        _ => false,
                    };
                    if is_match {
                        proof {
                            if hyp {
                                assert(rm_like(m, q[i as int]));
                                assert(envelope_transport(q[i as int]).payload == tm.payload);
                                assert(false);
                            }
                        }
                        let mut t2 = tm;
                        let _consumed = t2.onward_route.step();
                        return Ok(Routed { msg_addr: addr, transport: t2 });
                    }
                    if tm.onward_route.len() == 0 {
                        proof {
                            if hyp {
                                assert(rm_like(m, q[i as int]));
                                assert(false);
                            }
                            if hyp2 {
                                assert(!wanted(envelope_transport(m).payload, mtype, *check));
                                assert(c + kprime < x0);
                                assert(can_requeue(*old(node), q[c + kprime]));
                                assert(envelope_transport(q[c + kprime]) == tm);
                                assert(false);
                            }
                        }
                        return Err(Error::AddressUnknown);
                    }
                    let ghost pre_fwd = *node;
                    match self.forward(node, tm) {
                        Err(e) => {
                            proof {
                                if hyp {
                                    assert(rm_like(m, q[i as int]));
                                    crate::context::lemma_resolve_frame(
                                        pre_fwd,
                                        *old(node),
                                        envelope_transport(q[i as int]).onward_route@[0],
                                    );
                                    assert(false);
                                }
                                if hyp2 {
                                    assert(!wanted(envelope_transport(m).payload, mtype, *check));
                                    assert(c + kprime < x0);
                                    assert(can_requeue(*old(node), q[c + kprime]));
                                    assert(envelope_transport(q[c + kprime]) == tm);
                                    lemma_resolve_frame(pre_fwd, *old(node), tm.onward_route@[0]);
                                    assert(false);
                                }
                            }
                            return Err(e);
                        },
                        Ok(()) => {},
                    }
                    proof {
                        let head = tm.onward_route@[0];
                        lemma_resolve_frame(pre_fwd, *old(node), head);
                        let res = old(node).resolve_spec(head);
                        let rea = res->Some_0.0;
                        let rep = res->Some_0.1;
                        // Any other mailbox keeps its old contents as a
                        // prefix: the one possible requeue appends.
                        assert forall|x: int|
                            0 <= x < old(node).mailboxes@.len() && x != ep as int implies (
                        #[trigger] node.mailboxes@[x]).open == old(node).mailboxes@[x].open && old(
                            node,
                        ).mailboxes@[x].queue@.len() <= node.mailboxes@[x].queue@.len()
                            && node.mailboxes@[x].queue@.take(
                            old(node).mailboxes@[x].queue@.len() as int,
                        ) == old(node).mailboxes@[x].queue@ by {
                            assert(pre_fwd.mailboxes@[x] == pre_iter.mailboxes@[x]);
                            if x == rep {
                                assert(node.mailboxes@[x].queue@.take(
                                    pre_fwd.mailboxes@[x].queue@.len() as int,
                                ) == pre_fwd.mailboxes@[x].queue@);
                                assert(node.mailboxes@[x].queue@.take(
                                    old(node).mailboxes@[x].queue@.len() as int,
                                ) =~= pre_fwd.mailboxes@[x].queue@.take(
                                    old(node).mailboxes@[x].queue@.len() as int,
                                ));
                            } else {
                                assert(node.mailboxes@[x] == pre_fwd.mailboxes@[x]);
                            }
                        }
                        // Re-establish the origin invariant: the requeued
                        // envelope carries the transport message of a popped
                        // original.
                        assert forall|y: int| 0 <= y < node.mailboxes@[ep as int].queue@.len()
                            implies exists|k: int|
                            0 <= k < q.len() && envelope_transport(q[k]) == envelope_transport(
                                #[trigger] node.mailboxes@[ep as int].queue@[y],
                            ) by {
                            if rep == ep as int && y == node.mailboxes@[ep as int].queue@.len()
                                - 1 {
                                assert(envelope_transport(
                                    node.mailboxes@[ep as int].queue@[y],
                                ) == tm);
                                assert(envelope_transport(pre_iter.mailboxes@[ep as int].queue@[kprime])
                                    == tm);
                                let k0 = choose|k: int|
                                    0 <= k < q.len() && envelope_transport(q[k])
                                        == envelope_transport(
                                        #[trigger] pre_iter.mailboxes@[ep as int].queue@[kprime],
                                    );
                                assert(envelope_transport(q[k0]) == tm);
                            } else {
                                let prev = pre_fwd.mailboxes@[ep as int].queue@[y];
                                assert(node.mailboxes@[ep as int].queue@[y] == prev || exists|
                                    k: int,
                                |
                                    0 <= k < q.len() && envelope_transport(q[k])
                                        == envelope_transport(prev));
                                assert(pre_fwd.mailboxes@[ep as int].queue@[y]
                                    == pre_iter.mailboxes@[ep as int].queue@.skip(kprime + 1)[y]);
                            }
                        }
                        if hyp {
                            assert(rm_like(m, q[i as int]));
                            assert(self.self_routed(*old(node), q[i as int]));
                            assert(envelope_transport(q[i as int]).onward_route@ == tm.onward_route@);
                            assert(old(node).resolve_spec(head) == Some(
                                (q[i as int].addr@, ep as int, false),
                            ));
                            // The requeued envelope equals the original up to
                            // address identity.
                            let newq = node.mailboxes@[ep as int].queue@;
                            let oldq = pre_fwd.mailboxes@[ep as int].queue@;
                            assert(newq.len() == oldq.len() + 1);
                            assert(rm_like(newq.last(), q[i as int])) by {
                                assert(newq.last().addr@ == q[i as int].addr@);
                                assert(newq.last().data is Direct);
                                assert(envelope_transport(newq.last()) == tm);
                                assert(envelope_transport(q[i as int]) == tm) by {
                                    assert(rm_like(m, q[i as int]));
                                }
                            }
                            let mid = pre_iter.mailboxes@[ep as int].queue@;
                            assert(oldq == mid.skip(1));
                            assert(newq.len() == mid.len());
                            assert forall|t: int| 0 <= t < mid.len() - 1 implies newq[t] == mid[t
                                + 1] by {
                                assert(newq.take(oldq.len() as int) == oldq);
                                assert(newq[t] == oldq[t]);
                                assert(oldq[t] == mid[t + 1]);
                            }
                            lemma_requeue_rotation(q, mid, newq, i as int);
                        }
                        if hyp2 {
                            // One more original was consumed; the wanted
                            // envelope moves up by as much and the segment
                            // before it is untouched.
                            assert(!wanted(envelope_transport(m).payload, mtype, *check));
                            assert(c + kprime < x0);
                            let cold = c;
                            c = c + kprime + 1;
                            let piq = pre_iter.mailboxes@[ep as int].queue@;
                            let fwq = pre_fwd.mailboxes@[ep as int].queue@;
                            let nwq = node.mailboxes@[ep as int].queue@;
                            assert(fwq == piq.skip(kprime + 1));
                            assert(piq.len() >= x0 - cold + 1);
                            assert(fwq.len() >= x0 - c + 1);
                            assert(nwq.len() >= fwq.len());
                            assert forall|t: int| 0 <= t < fwq.len() implies nwq[t] == fwq[t] by {
                                if rep == ep as int {
                                    assert(nwq.take(fwq.len() as int) == fwq);
                                } else {
                                    assert(nwq == fwq);
                                }
                            }
                            assert(nwq.subrange(0, x0 - c + 1) =~= q.subrange(c, x0 + 1)) by {
                                assert forall|t: int| 0 <= t < x0 - c + 1 implies nwq[t] == q[c
                                    + t] by {
                                    assert(nwq[t] == fwq[t]);
                                    assert(fwq[t] == piq[kprime + 1 + t]);
                                    assert(piq.subrange(0, x0 - cold + 1)[kprime + 1 + t]
                                        == q.subrange(cold, x0 + 1)[kprime + 1 + t]);
                                }
                            }
                        }
                    }
                    i = i + 1;
                },
            }
        }
        proof {
            if hyp {
                let newq = node.mailboxes@[ep as int].queue@;
                assert(q.skip(budget as int) + q.take(budget as int) =~= q);
                assert(queue_like(newq, q));
            }
            if hyp2 {
                // The loop cannot run out of budget with the wanted
                // envelope still ahead of it.
                assert(i as int <= c <= x0 < budget);
                assert(false);
            }
        }
        Err(Error::Timeout)
    }

    /// Pull the next message of the requested type from the own mailbox;
    /// messages that fail to decode as that type are requeued through the
    /// node, not dropped, so other receivers can still observe them.
    pub fn next_from_mailbox(&self, node: &mut Node, mtype: u32) -> (r: Result<Routed, Error>)
        requires
            old(node).wf(),
            self.valid_for(*old(node)),
        ensures
            final (node).wf(),
            self.valid_for(*final (node)),
            scan_frame(*self, *old(node), *final (node)),
            scan_outcome(*self, MatchAny, mtype, *old(node), *final (node), r),
    {
        self.receive_scan(node, mtype, &MatchAny)
    }

    /// Wait for the next message of the requested type, without a bounded
    /// timeout of its own.  A wait nothing can wake still reports `Timeout`
    /// in the serialized model.
    pub fn receive_block(&self, node: &mut Node, mtype: u32) -> (r: Result<Routed, Error>)
        requires
            old(node).wf(),
            self.valid_for(*old(node)),
        ensures
            final (node).wf(),
            self.valid_for(*final (node)),
            scan_frame(*self, *old(node), *final (node)),
            scan_outcome(*self, MatchAny, mtype, *old(node), *final (node), r),
    {
        self.next_from_mailbox(node, mtype)
    }

    /// Wait up to the default timeout for the next message of the requested
    /// type.
    pub fn receive(&self, node: &mut Node, mtype: u32) -> (r: Result<Routed, Error>)
        requires
            old(node).wf(),
            self.valid_for(*old(node)),
        ensures
            final (node).wf(),
            self.valid_for(*final (node)),
            scan_frame(*self, *old(node), *final (node)),
            scan_outcome(*self, MatchAny, mtype, *old(node), *final (node), r),
    {
        self.receive_timeout(node, mtype, DEFAULT_TIMEOUT)
    }

    /// Wait up to a timeout for the next message of the requested type.
    ///
    /// All timeouts are whole seconds.  In the serialized model no new
    /// message can arrive while the caller waits, so exhausting the queued
    /// messages stands for the elapse of any timeout, whatever its length.
    pub fn receive_timeout(&self, node: &mut Node, mtype: u32, timeout_secs: u64) -> (r: Result<
        Routed,
        Error,
    >)
        requires
            old(node).wf(),
            self.valid_for(*old(node)),
        ensures
            final (node).wf(),
            self.valid_for(*final (node)),
            scan_frame(*self, *old(node), *final (node)),
            scan_outcome(*self, MatchAny, mtype, *old(node), *final (node), r),
    {
        let _ = timeout_secs;
        self.next_from_mailbox(node, mtype)
    }

    /// Wait for a message of the requested type that also satisfies the
    /// predicate; every message examined and not selected is requeued once
    /// per pass, so an unmatched wait redelivers each of them exactly once
    /// before reporting `Timeout`.
    pub fn receive_match<M: MessagePredicate>(&self, node: &mut Node, mtype: u32, check: &M) -> (r:
        Result<Routed, Error>)
        requires
            old(node).wf(),
            self.valid_for(*old(node)),
        ensures
            final (node).wf(),
            self.valid_for(*final (node)),
            scan_frame(*self, *old(node), *final (node)),
            scan_outcome(*self, *check, mtype, *old(node), *final (node), r),
    {
        self.receive_scan(node, mtype, check)
    }

    /// Start a worker at the given address set, with the permissive default
    /// access control.  All addresses are registered atomically; on success
    /// the worker is live and accepts messages at once, and its context is
    /// returned for the code that runs it.
    pub fn start_worker(&self, node: &mut Node, addresses: Vec<Address>) -> (r: Result<
        Context<AllowAll>,
        Error,
    >)
        requires
            old(node).wf(),
            addresses@.len() > 0,
        ensures
            final (node).wf(),
            match r {
                Ok(ctx) => Node::start_post(
                    *old(node),
                    addresses@,
                    AddressType::Worker,
                    false,
                    *final (node),
                    Ok(ctx.endpoint),
                ) && views_of(ctx.addresses@) == views_of(addresses@) && ctx.addresses@.len()
                    == addresses@.len() && ctx.valid_for(*final (node)),
                Err(e) => Node::start_post(
                    *old(node),
                    addresses@,
                    AddressType::Worker,
                    false,
                    *final (node),
                    Err(e),
                ),
            },
    {
        self.start_with(node, addresses, AddressType::Worker, false, AllowAll)
    }

    /// Start a worker with an explicit access-control policy.
    pub fn start_worker_with_access_control<Q: AccessControl>(
        &self,
        node: &mut Node,
        addresses: Vec<Address>,
        access_control: Q,
    ) -> (r: Result<Context<Q>, Error>)
        requires
            old(node).wf(),
            addresses@.len() > 0,
        ensures
            final (node).wf(),
            match r {
                Ok(ctx) => Node::start_post(
                    *old(node),
                    addresses@,
                    AddressType::Worker,
                    false,
                    *final (node),
                    Ok(ctx.endpoint),
                ) && views_of(ctx.addresses@) == views_of(addresses@) && ctx.addresses@.len()
                    == addresses@.len() && ctx.access_control == access_control && ctx.valid_for(
                    *final (node),
                ),
                Err(e) => Node::start_post(
                    *old(node),
                    addresses@,
                    AddressType::Worker,
                    false,
                    *final (node),
                    Err(e),
                ),
            },
    {
        self.start_with(node, addresses, AddressType::Worker, false, access_control)
    }

    /// Start a processor — an actor with a user-authored run loop — at a
    /// single address.
    pub fn start_processor(&self, node: &mut Node, address: Address) -> (r: Result<
        Context<AllowAll>,
        Error,
    >)
        requires
            old(node).wf(),
        ensures
            final (node).wf(),
            match r {
                Ok(ctx) => Node::start_post(
                    *old(node),
                    seq![address],
                    AddressType::Processor,
                    false,
                    *final (node),
                    Ok(ctx.endpoint),
                ) && views_of(ctx.addresses@) == seq![address@] && ctx.valid_for(*final (node)),
                Err(e) => Node::start_post(
                    *old(node),
                    seq![address],
                    AddressType::Processor,
                    false,
                    *final (node),
                    Err(e),
                ),
            },
    {
        let mut addresses: Vec<Address> = Vec::new();
        addresses.push(address);
        proof {
            assert(addresses@ =~= seq![address]);
        }
        self.start_with(node, addresses, AddressType::Processor, false, AllowAll)
    }

    /// Create a new bare context at the given address, without spawning a
    /// full worker: the address is registered detached, and whoever holds
    /// the returned context pulls from its mailbox directly.
    pub fn new_context(&self, node: &mut Node, addr: Address) -> (r: Result<
        Context<AllowAll>,
        Error,
    >)
        requires
            old(node).wf(),
        ensures
            final (node).wf(),
            match r {
                Ok(ctx) => Node::start_post(
                    *old(node),
                    seq![addr],
                    AddressType::Worker,
                    true,
                    *final (node),
                    Ok(ctx.endpoint),
                ) && views_of(ctx.addresses@) == seq![addr@] && ctx.valid_for(*final (node)),
                Err(e) => Node::start_post(
                    *old(node),
                    seq![addr],
                    AddressType::Worker,
                    true,
                    *final (node),
                    Err(e),
                ),
            },
    {
        let mut addresses: Vec<Address> = Vec::new();
        addresses.push(addr);
        proof {
            assert(addresses@ =~= seq![addr]);
        }
        self.start_with(node, addresses, AddressType::Worker, true, AllowAll)
    }

    /// The shared start request: register the address set and wrap the new
    /// endpoint in a context for the code that runs the actor.
    fn start_with<Q: AccessControl>(
        &self,
        node: &mut Node,
        addresses: Vec<Address>,
        kind: AddressType,
        detached: bool,
        access_control: Q,
    ) -> (r: Result<Context<Q>, Error>)
        requires
            old(node).wf(),
            addresses@.len() > 0,
        ensures
            final (node).wf(),
            match r {
                Ok(ctx) => Node::start_post(
                    *old(node),
                    addresses@,
                    kind,
                    detached,
                    *final (node),
                    Ok(ctx.endpoint),
                ) && views_of(ctx.addresses@) == views_of(addresses@) && ctx.addresses@.len()
                    == addresses@.len() && ctx.access_control == access_control && ctx.valid_for(
                    *final (node),
                ),
                Err(e) => Node::start_post(
                    *old(node),
                    addresses@,
                    kind,
                    detached,
                    *final (node),
                    Err(e),
                ),
            },
    {
        let own = clone_addresses(&addresses);
        match node.start(addresses, kind, detached) {
            Ok(endpoint) => Ok(Context { addresses: own, endpoint, access_control }),
            Err(e) => Err(e),
        }
    }

    /// Shut down a worker by one of its addresses.
    pub fn stop_worker(&self, node: &mut Node, addr: &Address) -> (r: Result<(), Error>)
        requires
            old(node).wf(),
        ensures
            final (node).wf(),
            Node::stop_post(*old(node), addr@, AddressType::Worker, *final (node), r),
    {
        self.stop_address(node, addr, AddressType::Worker)
    }

    /// Shut down a processor by its address.
    pub fn stop_processor(&self, node: &mut Node, addr: &Address) -> (r: Result<(), Error>)
        requires
            old(node).wf(),
        ensures
            final (node).wf(),
            Node::stop_post(*old(node), addr@, AddressType::Processor, *final (node), r),
    {
        self.stop_address(node, addr, AddressType::Processor)
    }

    /// The shared stop request, for either actor flavour.
    fn stop_address(&self, node: &mut Node, addr: &Address, t: AddressType) -> (r: Result<
        (),
        Error,
    >)
        requires
            old(node).wf(),
        ensures
            final (node).wf(),
            Node::stop_post(*old(node), addr@, t, *final (node), r),
    {
        node.stop(addr, t)
    }

    /// Shut the node down immediately.  No stop signal is delivered and
    /// whatever sits in a mailbox is lost with it: a deliberate trade-off,
    /// the graceful [`Context::stop`] is the safer choice.
    pub fn stop_now(&self, node: &mut Node) -> (r: Result<(), Error>)
        requires
            old(node).wf(),
        ensures
            final (node).wf(),
            r == Ok::<(), Error>(()),
            final (node).state is Stopped,
            final (node).records@.len() == 0,
            final (node).mailboxes@.len() == old(node).mailboxes@.len(),
            forall|x: int|
                0 <= x < old(node).mailboxes@.len() ==> !(#[trigger] final (
                node).mailboxes@[x]).open,
    {
        let _ = node.shutdown(ShutdownKind::Immediate);
        Ok(())
    }

    /// Shut the node down gracefully with the default one-second timeout.
    pub fn stop(&self, node: &mut Node) -> (r: Result<(), Error>)
        requires
            old(node).wf(),
        ensures
            final (node).wf(),
            r == Ok::<(), Error>(()),
            final (node).state is Stopped,
            final (node).records@.len() == 0,
            final (node).mailboxes@.len() == old(node).mailboxes@.len(),
            forall|x: int|
                0 <= x < old(node).mailboxes@.len() ==> !(#[trigger] final (
                node).mailboxes@[x]).open,
    {
        self.stop_timeout(node, 1)
    }

    /// Shut the node down gracefully: stop signals go out cluster by
    /// cluster in reverse creation order, each actor given up to the timeout
    /// to acknowledge, and the call returns once the router reports
    /// completion.
    pub fn stop_timeout(&self, node: &mut Node, seconds: u8) -> (r: Result<(), Error>)
        requires
            old(node).wf(),
        ensures
            final (node).wf(),
            r == Ok::<(), Error>(()),
            final (node).state is Stopped,
            final (node).records@.len() == 0,
            final (node).mailboxes@.len() == old(node).mailboxes@.len(),
            forall|x: int|
                0 <= x < old(node).mailboxes@.len() ==> !(#[trigger] final (
                node).mailboxes@[x]).open,
    {
        let _ = node.shutdown(ShutdownKind::Graceful(seconds));
        Ok(())
    }

    /// Send a message to another of this very actor's addresses; an `addr`
    /// the context does not own is rejected.
    pub fn send_to_self(
        &self,
        node: &mut Node,
        from: &Address,
        addr: &Address,
        payload: Payload,
    ) -> (r: Result<(), Error>)
        requires
            old(node).wf(),
        ensures
            final (node).wf(),
            !ctx_owns(self.addresses@, addr@) ==> r == Err::<(), Error>(Error::InvalidAddress)
                && *final (node) == *old(node),
            ctx_owns(self.addresses@, addr@) && !ctx_owns(self.addresses@, from@) ==> r == Err::<
                (),
                Error,
            >(Error::InvalidAddress) && *final (node) == *old(node),
            ctx_owns(self.addresses@, addr@) && ctx_owns(self.addresses@, from@) ==> send_effect(
                *old(node),
                addr@,
                seq![addr@],
                seq![from@],
                payload,
                *final (node),
                r,
            ),
    {
        if !self.owns(addr) {
            return Err(Error::InvalidAddress);
        }
        let route = Route::single(addr.clone());
        self.send_from_address(node, route, payload, from.clone())
    }

    /// Send a message through an ephemeral child context and wait for a
    /// typed reply addressed to it; the child is discarded afterwards.
    ///
    /// The request is delivered to the route's resolved first hop with the
    /// fresh child address as its return route — or fails with
    /// `AddressUnknown`, changing nothing, exactly when that hop does not
    /// resolve.  A reply, though, can only be produced by running the
    /// destination actor, which nothing does while this call waits in the
    /// serialized model: the wait reports `Timeout`.  To observe a full
    /// exchange, drive the destination with [`Context::send`] and
    /// [`Context::receive`] around its handler.
    #[verifier::rlimit(100)]
    pub fn send_and_receive(
        &self,
        node: &mut Node,
        route: Route,
        payload: Payload,
        response_type: u32,
    ) -> (r: Result<Routed, Error>)
        requires
            old(node).wf(),
            route@.len() > 0,
        ensures
            final (node).wf(),
            final (node).records@ == old(node).records@,
            final (node).state == old(node).state,
            final (node).clusters@ == old(node).clusters@,
            final (node).type_routers@ == old(node).type_routers@,
            match old(node).resolve_spec(route@[0]) {
                None => r == Err::<Routed, Error>(Error::AddressUnknown) && *final (node) == *old(
                    node,
                ),
                Some((ra, ep, wrap)) => {
                    let f = fresh_address(old(node).next_fresh);
                    &&& ((old(node).state is Running && !old(node).owns_addr(f)) ==> {
                        &&& r == Err::<Routed, Error>(Error::Timeout)
                        &&& final (node).next_fresh == Node::next_counter(old(node).next_fresh)
                        &&& final (node).mailboxes@.len() == old(node).mailboxes@.len() + 1
                        &&& final (node).mailboxes@[ep].queue@.len() == old(
                            node,
                        ).mailboxes@[ep].queue@.len() + 1
                        &&& final (node).mailboxes@[ep].queue@.take(
                            old(node).mailboxes@[ep].queue@.len() as int,
                        ) == old(node).mailboxes@[ep].queue@
                        &&& delivered_envelope(
                            final (node).mailboxes@[ep].queue@.last(),
                            ra,
                            wrap,
                            route@,
                            seq![f],
                            payload,
                        )
                        &&& forall|x: int|
                            0 <= x < old(node).mailboxes@.len() && x != ep ==> #[trigger] final (
                            node).mailboxes@[x] == old(node).mailboxes@[x]
                    })
                    &&& (!(old(node).state is Running && !old(node).owns_addr(f)) ==> r is Err
                        && (forall|x: int|
                        0 <= x < old(node).mailboxes@.len() ==> #[trigger] final (
                        node).mailboxes@[x] == old(node).mailboxes@[x]))
                },
            },
    {
        // Resolve first: an unresolvable route creates nothing.
        let next = match route.next() {
            Some(a) => a.clone(),
            None => {
                return Err(Error::AddressUnknown);
            },
        };
        let (ra, ep, wrap) = match node.resolve(&next) {
            Ok(t) => t,
            Err(_) => {
                return Err(Error::AddressUnknown);
            },
        };
        let ghost pre = *old(node);
        let fresh = node.mint_fresh_address();
        let child = match self.new_context(node, fresh) {
            Ok(c) => c,
            Err(e) => {
                return Err(e);
            },
        };
        let ghost mid = *node;
        let caddr = child.address();
        proof {
            assert(mid.records@.last().addresses@ == seq![fresh]);
            assert(mid.records@.last().addresses@[0] == fresh);
            assert(views_of(child.addresses@)[0] == child.addresses@[0]@);
            assert(caddr@ == fresh@);
            assert(rec_owns(mid.records@.last(), caddr@));
        }
        // Deliver the request under the child's return address.
        let mut return_route = Route::new();
        return_route.append(child.address());
        let tm = TransportMessage { onward_route: route, return_route, payload };
        let rm = if wrap {
            RelayMessage::pre_router(ra, tm)
        } else {
            RelayMessage::direct(ra, tm)
        };
        match node.deliver(ep, rm) {
            Ok(()) => {
                proof {
                    assert(node.mailboxes@[ep as int].queue@.take(
                        pre.mailboxes@[ep as int].queue@.len() as int,
                    ) =~= pre.mailboxes@[ep as int].queue@);
                }
            },
            Err(_) => {
                // The resolved record's mailbox is open by well-formedness.
                proof {
                    assert(false);
                }
                return Err(Error::MailboxClosed);
            },
        }
        // Nothing runs the destination, and the child's mailbox is empty:
        // the wait reports Timeout without touching any other mailbox.
        let res: Result<Routed, Error> = child.receive(node, response_type);
        proof {
            assert(node.records@ == mid.records@);
            assert(rec_owns(node.records@[node.records@.len() - 1], caddr@));
            node.lemma_owner_is(caddr@, node.records@.len() - 1);
        }
        match node.stop(&caddr, AddressType::Worker) {
            Ok(()) => {},
            Err(_) => {},
        }
        proof {
            assert(node.records@ =~= pre.records@);
        }
        res
    }

    /// Assign this actor to the named cluster (names in the reserved
    /// internal namespace are rejected), so that it is stopped with the
    /// cluster — and before every cluster created earlier — when the node
    /// shuts down.
    pub fn set_cluster(&self, node: &mut Node, label: Vec<u8>) -> (r: Result<(), Error>)
        requires
            old(node).wf(),
            self.addresses@.len() > 0,
        ensures
            final (node).wf(),
            Node::set_cluster_post(
                *old(node),
                self.addresses@[0]@,
                label@,
                *final (node),
                r,
            ),
    {
        let a = self.address();
        node.set_cluster(&a, label)
    }

    /// A snapshot of every live address on the node.
    pub fn list_workers(&self, node: &Node) -> (r: Vec<Address>)
        ensures
            views_of(r@) == Node::all_addr_views(node.records@),
    {
        node.list_workers()
    }

    /// Register a protocol router for a transport type tag: at most one per
    /// tag.
    pub fn register(&self, node: &mut Node, type_: u8, addr: Address) -> (r: Result<(), Error>)
        requires
            old(node).wf(),
        ensures
            final (node).wf(),
            old(node).has_type_router(type_) ==> r == Err::<(), Error>(Error::AlreadyRegistered)
                && *final (node) == *old(node),
            !old(node).has_type_router(type_) ==> r == Ok::<(), Error>(()) && final (
            node).has_type_router(type_) && final (node).type_router_addr(type_) == addr@ && final (
            node).records@ == old(node).records@ && final (node).mailboxes@ == old(node).mailboxes@
                && final (node).clusters@ == old(node).clusters@ && final (node).state == old(
                node,
            ).state,
    {
        let ghost a = addr@;
        let r = node.register_type(type_, addr);
        proof {
            if !old(node).has_type_router(type_) {
                node.lemma_type_router_is(type_, old(node).type_routers@.len() as int);
            }
        }
        r
    }

    /// Report that this actor's initialization finished: its addresses
    /// become ready, and waiters unblock.
    pub fn set_ready(&self, node: &mut Node) -> (r: Result<(), Error>)
        requires
            old(node).wf(),
            self.addresses@.len() > 0,
        ensures
            final (node).wf(),
            !old(node).owns_addr(self.addresses@[0]@) ==> r == Err::<(), Error>(Error::NotFound)
                && *final (node) == *old(node),
            old(node).owns_addr(self.addresses@[0]@) ==> r == Ok::<(), Error>(()) && final (
            node).records@ == old(node).records@.update(
                old(node).owner_index(self.addresses@[0]@),
                (ActorRecord {
                    ready: true,
                    ..old(node).records@[old(node).owner_index(self.addresses@[0]@)]
                }),
            ) && final (node).mailboxes@ == old(node).mailboxes@,
    {
        let a = self.address();
        node.set_ready(&a)
    }

    /// Wait for an address to become ready.  The wait fails with `NotFound`
    /// if the address is dropped from the registry; one that would suspend
    /// until somebody else reports readiness — which nothing can do in the
    /// serialized model — reports `Timeout`.
    pub fn wait_for(&self, node: &Node, addr: &Address) -> (r: Result<(), Error>)
        requires
            node.wf(),
        ensures
            !node.owns_addr(addr@) ==> r == Err::<(), Error>(Error::NotFound),
            node.owns_addr(addr@) && node.records@[node.owner_index(addr@)].ready ==> r == Ok::<
                (),
                Error,
            >(()),
            node.owns_addr(addr@) && !node.records@[node.owner_index(addr@)].ready ==> r == Err::<
                (),
                Error,
            >(Error::Timeout),
    {
        match node.ready_state(addr) {
            Err(e) => Err(e),
            Ok(true) => Ok(()),
            Ok(false) => Err(Error::Timeout),
        }
    }
}

} // verus!
