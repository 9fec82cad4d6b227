use vstd::prelude::*;

verus! {

/// An ordered collection of services with the same signature, meant to be
/// called one after the other with clones of the same request.
pub struct ServiceSet<S> {
    inner: Vec<S>,
}

impl<S> ServiceSet<S> {
    /// The services in registration order.
    pub closed spec fn services(&self) -> Seq<S> {
        self.inner@
    }

    /// An empty set.
    pub fn new() -> (r: ServiceSet<S>)
        ensures
            r.services() == Seq::<S>::empty(),
    {
        ServiceSet { inner: Vec::new() }
    }

    /// A set holding exactly one service.
    pub fn from(s: S) -> (r: ServiceSet<S>)
        ensures
            r.services().len() == 1,
            r.services()[0] == s,
    {
        let mut inner: Vec<S> = Vec::new();
        inner.push(s);
        ServiceSet { inner }
    }

    /// Append one service at the end.
    pub fn push(&mut self, svc: S)
        ensures
            final(self).services() == old(self).services().push(svc),
    {
        self.inner.push(svc);
    }

    /// How many services are registered.
    pub fn len(&self) -> (r: usize)
        ensures
            r == self.services().len(),
    {
        self.inner.len()
    }
}

impl<S> Default for ServiceSet<S> {
    fn default() -> (r: Self)
        ensures
            r.services() == Seq::<S>::empty(),
    {
        ServiceSet { inner: Vec::new() }
    }
}

} // verus!
