use vstd::prelude::*;

verus! {

/// Transport type tag of node-local addresses: they resolve in the node
/// registry alone and are never delegated to a protocol router.
pub const LOCAL: u8 = 0;

/// Transport type tag of TCP addresses, the transport whose protocol router
/// this crate carries as an exemplar.
pub const TCP: u8 = 1;

/// The mathematical value of an [`Address`]: its transport type tag and its
/// identifier bytes.
#[verifier::ext_equal]
pub ghost struct AbstractAddress {
    pub tt: u8,
    pub data: Seq<u8>,
}

/// An address: the identifier of one actor mailbox, unique within a node
/// while the actor is live.
///
/// The transport type tag decides how an unregistered address is resolved: a
/// `LOCAL` address only ever resolves through the registry, while an address
/// tagged with another transport type may be delegated to that transport's
/// protocol router.
#[verifier::ext_equal]
pub struct Address {
    /// Transport type tag.
    pub tt: u8,
    /// Opaque identifier bytes.
    pub data: Vec<u8>,
}

impl View for Address {
    type V = AbstractAddress;

    open spec fn view(&self) -> AbstractAddress {
        AbstractAddress { tt: self.tt, data: self.data@ }
    }
}

/// The sequence of abstract values of a sequence of addresses.
pub open spec fn views_of(s: Seq<Address>) -> Seq<AbstractAddress> {
    s.map(|i: int, a: Address| a@)
}

/// Appending an address commutes with taking views.
pub proof fn lemma_views_of_push(s: Seq<Address>, a: Address)
    ensures
        views_of(s.push(a)) =~= views_of(s).push(a@),
{
}

/// Copy a byte vector element by element.
pub fn clone_bytes(v: &Vec<u8>) -> (r: Vec<u8>)
    ensures
        r@ == v@,
{
    let mut out: Vec<u8> = Vec::new();
    let mut i: usize = 0;
    while i < v.len()
        invariant
            i <= v@.len(),
            out@ == v@.take(i as int),
        decreases v@.len() - i,
    {
        out.push(v[i]);
        i = i + 1;
        proof {
            assert(out@ =~= v@.take(i as int));
        }
    }
    proof {
        assert(v@.take(v@.len() as int) =~= v@);
    }
    out
}

impl Address {
    /// Build an address from a transport type tag and identifier bytes.
    pub fn new(tt: u8, data: Vec<u8>) -> (r: Address)
        ensures
            r@ == (AbstractAddress { tt, data: data@ }),
    {
        Address { tt, data }
    }

    /// Build a node-local address from identifier bytes.
    pub fn local(data: Vec<u8>) -> (r: Address)
        ensures
            r@ == (AbstractAddress { tt: LOCAL, data: data@ }),
    {
        Address { tt: LOCAL, data }
    }

    /// Byte-for-byte comparison of two addresses.
    pub fn addr_eq(&self, other: &Address) -> (r: bool)
        ensures
            r == (self@ == other@),
    {
        if self.tt != other.tt {
            return false;
        }
        if self.data.len() != other.data.len() {
            proof {
                assert(self@.data.len() != other@.data.len());
            }
            return false;
        }
        let mut i: usize = 0;
        while i < self.data.len()
            invariant
                i <= self.data@.len(),
                self.data@.len() == other.data@.len(),
                self.tt == other.tt,
                forall|k: int| 0 <= k < i ==> self.data@[k] == other.data@[k],
            decreases self.data@.len() - i,
        {
            if self.data[i] != other.data[i] {
                return false;
            }
            i = i + 1;
        }
        proof {
            assert(self.data@ =~= other.data@);
            assert(self@ =~= other@);
        }
        true
    }
}

impl Clone for Address {
    /// Cloning keeps the abstract value.
    fn clone(&self) -> (r: Self)
        ensures
            r@ == self@,
    {
        Address { tt: self.tt, data: clone_bytes(&self.data) }
    }
}

/// Byte-for-byte comparison of two byte vectors.
pub fn bytes_eq(a: &Vec<u8>, b: &Vec<u8>) -> (r: bool)
    ensures
        r == (a@ == b@),
{
    if a.len() != b.len() {
        return false;
    }
    let mut i: usize = 0;
    while i < a.len()
        invariant
            i <= a@.len(),
            a@.len() == b@.len(),
            forall|k: int| 0 <= k < i ==> a@[k] == b@[k],
        decreases a@.len() - i,
    {
        if a[i] != b[i] {
            return false;
        }
        i = i + 1;
    }
    proof {
        assert(a@ =~= b@);
    }
    true
}

/// Whether `p` is a prefix of `s`.
pub open spec fn has_prefix(s: Seq<u8>, p: Seq<u8>) -> bool {
    p.len() <= s.len() && s.take(p.len() as int) == p
}

/// Check whether `p` is a prefix of `s`.
pub fn bytes_have_prefix(s: &Vec<u8>, p: &Vec<u8>) -> (r: bool)
    ensures
        r == has_prefix(s@, p@),
{
    if p.len() > s.len() {
        return false;
    }
    let mut i: usize = 0;
    while i < p.len()
        invariant
            i <= p@.len(),
            p@.len() <= s@.len(),
            forall|k: int| 0 <= k < i ==> s@[k] == p@[k],
        decreases p@.len() - i,
    {
        if s[i] != p[i] {
            proof {
                assert(s@.take(p@.len() as int)[i as int] != p@[i as int]);
            }
            return false;
        }
        i = i + 1;
    }
    proof {
        assert(s@.take(p@.len() as int) =~= p@);
    }
    true
}

/// Copy a vector of addresses element by element, keeping every abstract value.
pub fn clone_addresses(v: &Vec<Address>) -> (r: Vec<Address>)
    ensures
        views_of(r@) == views_of(v@),
        r@.len() == v@.len(),
{
    let mut out: Vec<Address> = Vec::new();
    let mut i: usize = 0;
    while i < v.len()
        invariant
            i <= v@.len(),
            out@.len() == i,
            views_of(out@) == views_of(v@.take(i as int)),
        decreases v@.len() - i,
    {
        let a = v[i].clone();
        proof {
            lemma_views_of_push(out@, a);
            lemma_views_of_push(v@.take(i as int), v@[i as int]);
            assert(v@.take(i as int).push(v@[i as int]) =~= v@.take(i + 1));
        }
        out.push(a);
        i = i + 1;
    }
    proof {
        assert(v@.take(v@.len() as int) =~= v@);
    }
    out
}

} // verus!
