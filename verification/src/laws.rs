use vstd::prelude::*;
use crate::address::{AbstractAddress, Address, LOCAL};
use crate::error::Error;
use crate::node::{addrs_distinct, none_registered, rec_owns, AddressType, Node};

verus! {

/// Starting two non-empty, internally distinct, mutually disjoint batches
/// of unregistered addresses always succeeds in turn: the first request is
/// acknowledged, and the second still finds every one of its addresses
/// free.
pub proof fn law_start_disjoint_batches(
    n0: Node,
    n1: Node,
    n2: Node,
    a: Seq<Address>,
    b: Seq<Address>,
    ka: AddressType,
    kb: AddressType,
    da: bool,
    db: bool,
    r1: Result<usize, Error>,
    r2: Result<usize, Error>,
)
    requires
        n0.wf(),
        n0.state is Running,
        a.len() > 0,
        b.len() > 0,
        addrs_distinct(a),
        addrs_distinct(b),
        none_registered(n0, a),
        none_registered(n0, b),
        forall|i: int, j: int|
            0 <= i < a.len() && 0 <= j < b.len() ==> (#[trigger] a[i])@ != (#[trigger] b[j])@,
        Node::start_post(n0, a, ka, da, n1, r1),
        Node::start_post(n1, b, kb, db, n2, r2),
    ensures
        r1 is Ok,
        r2 is Ok,
{
    assert forall|k: int| 0 <= k < b.len() implies !n1.owns_addr((#[trigger] b[k])@) by {
        if n1.owns_addr(b[k]@) {
            let i = choose|i: int|
                0 <= i < n1.records@.len() && rec_owns(#[trigger] n1.records@[i], b[k]@);
            if i < n0.records@.len() {
                assert(n1.records@[i] == n0.records@.subrange(0, n0.records@.len() as int)[i]);
                assert(rec_owns(n0.records@[i], b[k]@));
                assert(n0.owns_addr(b[k]@));
            } else {
                assert(n1.records@[i] == n1.records@.last());
                let j = choose|j: int|
                    0 <= j < n1.records@.last().addresses@.len()
                        && n1.records@.last().addresses@[j]@ == b[k]@;
                assert(a[j]@ == b[k]@);
            }
        }
    }
}

/// Starting the same batch twice fails the second request with
/// `AddressInUse` and leaves the registry exactly as it stood after the
/// first: no partial insert.
pub proof fn law_start_twice(
    n0: Node,
    n1: Node,
    n2: Node,
    a: Seq<Address>,
    ka: AddressType,
    kb: AddressType,
    da: bool,
    db: bool,
    r1: Result<usize, Error>,
    r2: Result<usize, Error>,
)
    requires
        n0.wf(),
        n0.state is Running,
        a.len() > 0,
        addrs_distinct(a),
        none_registered(n0, a),
        Node::start_post(n0, a, ka, da, n1, r1),
        Node::start_post(n1, a, kb, db, n2, r2),
    ensures
        r1 is Ok,
        r2 == Err::<usize, Error>(Error::AddressInUse),
        n2 == n1,
{
    assert(n1.records@.last().addresses@[0]@ == a[0]@);
    assert(rec_owns(n1.records@.last(), a[0]@));
    assert(n1.owns_addr(a[0]@)) by {
        assert(rec_owns(n1.records@[n1.records@.len() - 1], a[0]@));
    }
    assert(!none_registered(n1, a));
}

/// One step of route consumption: the first unconsumed hop comes off the
/// front.  This is exactly what [`crate::route::Route::step`] promises of a
/// non-empty route.
pub open spec fn step_rel(
    prev: Seq<AbstractAddress>,
    next: Seq<AbstractAddress>,
    out: AbstractAddress,
) -> bool {
    prev.len() > 0 && out == prev[0] && next == prev.drop_first()
}

/// A route of `n` hops is consumed by exactly `n` step consumptions, which
/// return its hops in order and leave it exhausted: given the chain of
/// route states a message passes through on its way to delivery, the
/// consumed hops are the original route itself and nothing remains.
pub proof fn law_route_consumption(states: Seq<Seq<AbstractAddress>>, outs: Seq<AbstractAddress>)
    requires
        states.len() == outs.len() + 1,
        outs.len() == states[0].len(),
        forall|i: int| 0 <= i < outs.len() ==> step_rel(#[trigger] states[i], states[i + 1], outs[i]),
    ensures
        outs == states[0],
        states[states.len() - 1].len() == 0,
{
    lemma_route_consumption_prefix(states, outs, outs.len() as int);
    assert(states[0].skip(states[0].len() as int) =~= Seq::<AbstractAddress>::empty());
    assert(outs.take(outs.len() as int) =~= outs);
    assert(states[0].take(states[0].len() as int) =~= states[0]);
}

/// After `j` of the steps, the remaining route is the original with its
/// first `j` hops gone, and the hops consumed so far are exactly those.
proof fn lemma_route_consumption_prefix(
    states: Seq<Seq<AbstractAddress>>,
    outs: Seq<AbstractAddress>,
    j: int,
)
    requires
        states.len() == outs.len() + 1,
        outs.len() == states[0].len(),
        forall|i: int| 0 <= i < outs.len() ==> step_rel(#[trigger] states[i], states[i + 1], outs[i]),
        0 <= j <= outs.len(),
    ensures
        states[j] == states[0].skip(j),
        outs.take(j) == states[0].take(j),
    decreases j,
{
    if j == 0 {
        assert(states[0].skip(0) =~= states[0]);
        assert(outs.take(0) =~= states[0].take(0));
    } else {
        lemma_route_consumption_prefix(states, outs, j - 1);
        assert(step_rel(states[j - 1], states[j], outs[j - 1]));
        assert(states[j] == states[j - 1].drop_first());
        assert(states[0].skip(j - 1).drop_first() =~= states[0].skip(j));
        assert(outs[j - 1] == states[0].skip(j - 1)[0]);
        assert(outs[j - 1] == states[0][j - 1]);
        assert(outs.take(j) =~= states[0].take(j));
    }
}

/// Stopping an actor makes its addresses immediately unresolvable: once a
/// stop request for `a` was acknowledged, resolution of any node-local
/// address `x` the stopped actor owned fails — so a send to it, which the
/// send contract ties to this very resolution, reports `AddressUnknown`.
///
/// An address tagged with another transport type is left out: such an
/// address may still resolve through that transport's protocol router.
pub proof fn law_stop_unresolvable(
    n0: Node,
    n1: Node,
    a: AbstractAddress,
    kind: AddressType,
    x: AbstractAddress,
)
    requires
        n0.wf(),
        n1.wf(),
        Node::stop_post(n0, a, kind, n1, Ok(())),
        n0.owns_addr(a),
        rec_owns(n0.records@[n0.owner_index(a)], x),
        x.tt == LOCAL,
    ensures
        n1.resolve_spec(x) is None,
{
    let i = n0.owner_index(a);
    assert(0 <= i < n0.records@.len());
    assert(!n1.owns_addr(x)) by {
        if n1.owns_addr(x) {
            let i2 = choose|i2: int|
                0 <= i2 < n1.records@.len() && rec_owns(#[trigger] n1.records@[i2], x);
            let p = if i2 < i {
                i2
            } else {
                i2 + 1
            };
            assert(n1.records@ == n0.records@.remove(i));
            assert(n1.records@[i2] == n0.records@[p]);
            assert(rec_owns(n0.records@[p], x));
            let j1 = choose|j: int|
                0 <= j < n0.records@[i].addresses@.len() && n0.records@[i].addresses@[j]@ == x;
            let j2 = choose|j: int|
                0 <= j < n0.records@[p].addresses@.len() && n0.records@[p].addresses@[j]@ == x;
            assert(n0.records@[i].addresses@[j1]@ == n0.records@[p].addresses@[j2]@);
            assert(i == p);
            assert(false);
        }
    }
}

} // verus!
