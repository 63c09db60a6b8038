use vstd::prelude::*;

verus! {

/// A resource together with the one sequence that was bound to it.
///
/// The sequence is made when the value is made, so there is no state in which
/// it is missing. It holds a handle of its own on whatever it needs of the
/// resource and borrows nothing from this value, which may therefore be moved.
/// The resource is kept for as long as the sequence is, and the sequence,
/// declared first, is released first.
pub struct OwnedPoolStream<R, S> {
    stream: S,
    pool: R,
}

impl<R, S> OwnedPoolStream<R, S> {
    /// The resource.
    pub closed spec fn pool(&self) -> R {
        self.pool
    }

    /// The sequence bound to the resource.
    pub closed spec fn stream(&self) -> S {
        self.stream
    }

    /// Binds `query` to `pool`, at once, and keeps the two together.
    pub fn from<D, B>(pool: R, query: D, bind: &B) -> (bound: Self) where B: Fn(&R, D) -> S
        requires
            bind.requires((&pool, query)),
        ensures
            bound.pool() == pool,
            bind.ensures((&pool, query), bound.stream()),
    {
        let stream = bind(&pool, query);
        OwnedPoolStream { stream, pool }
    }

    pub fn pool_ref(&self) -> (pool: &R)
        ensures
            *pool == self.pool(),
    {
        &self.pool
    }

    /// The sequence, for the driver to poll.
    pub fn stream_mut(&mut self) -> (stream: &mut S)
        ensures
            *stream == old(self).stream(),
            final(self).stream() == *final(stream),
            final(self).pool() == old(self).pool(),
    {
        &mut self.stream
    }
}

} // verus!
