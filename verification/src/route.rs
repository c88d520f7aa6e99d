use vstd::prelude::*;
use crate::address::{views_of, AbstractAddress, Address};

verus! {

/// A route: the ordered sequence of remaining hops a message still has to
/// travel.  The first hop is the next destination; it is consumed by
/// [`Route::step`] as the message passes it.  Routers that insert themselves
/// as hops rewrite a route mid-flight with [`Route::prepend`] and
/// [`Route::append`].
#[verifier::ext_equal]
pub struct Route {
    /// Remaining hops, first hop first.
    pub hops: Vec<Address>,
}

impl View for Route {
    type V = Seq<AbstractAddress>;

    open spec fn view(&self) -> Seq<AbstractAddress> {
        views_of(self.hops@)
    }
}

impl Route {
    /// The empty route.
    pub fn new() -> (r: Route)
        ensures
            r@ =~= Seq::<AbstractAddress>::empty(),
    {
        Route { hops: Vec::new() }
    }

    /// A route made of the given hops, in order.
    pub fn from_hops(hops: Vec<Address>) -> (r: Route)
        ensures
            r@ == views_of(hops@),
    {
        Route { hops }
    }

    /// The route of a single hop.
    pub fn single(a: Address) -> (r: Route)
        ensures
            r@ =~= seq![a@],
    {
        let mut hops: Vec<Address> = Vec::new();
        hops.push(a);
        Route { hops }
    }

    /// The number of remaining hops.
    pub fn len(&self) -> (n: usize)
        ensures
            n == self@.len(),
    {
        self.hops.len()
    }

    /// The next unconsumed hop, or `None` on an exhausted route.
    pub fn next(&self) -> (r: Option<&Address>)
        ensures
            match r {
                Some(a) => self@.len() > 0 && a@ == self@[0],
                None => self@.len() == 0,
            },
    {
        if self.hops.len() == 0 {
            None
        } else {
            Some(&self.hops[0])
        }
    }

    /// Consume and return the next hop; on an exhausted route, change nothing
    /// and return `None`.
    pub fn step(&mut self) -> (r: Option<Address>)
        ensures
            match r {
                Some(a) => old(self)@.len() > 0 && a@ == old(self)@[0] && final (self)@
                    =~= old(self)@.drop_first(),
                None => old(self)@.len() == 0 && final (self)@ == old(self)@,
            },
    {
        if self.hops.len() == 0 {
            None
        } else {
            let a = self.hops.remove(0);
            proof {
                assert(self@ =~= old(self)@.drop_first());
            }
            Some(a)
        }
    }

    /// Insert a hop at the front of the route.
    pub fn prepend(&mut self, a: Address)
        ensures
            final (self)@ =~= seq![a@] + old(self)@,
    {
        self.hops.insert(0, a);
    }

    /// Add a hop at the end of the route.
    pub fn append(&mut self, a: Address)
        ensures
            final (self)@ =~= old(self)@.push(a@),
    {
        self.hops.push(a);
    }
}

impl Clone for Route {
    /// Cloning keeps the abstract hop sequence.
    fn clone(&self) -> (r: Self)
        ensures
            r@ == self@,
    {
        Route { hops: crate::address::clone_addresses(&self.hops) }
    }
}

} // verus!
