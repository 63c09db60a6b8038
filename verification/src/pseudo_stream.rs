use vstd::prelude::*;

use crate::polled::Polled;

verus! {

/// One pending computation as a sequence of one item: its result, then the
/// end.
///
/// The encoder owns the computation and never polls it. The driver polls it
/// through `future_mut` while `wants_poll` holds, and hands what it gave to
/// `poll_next`. Once the result is out the computation is not looked at
/// again.
pub struct PseudoStream<F> {
    emitted: bool,
    future: F,
}

/// One poll: whether the result is out after it, and the answer. `polled` is
/// the result of the computation, or `None` while there is none yet.
pub open spec fn pseudo_step<V>(emitted: bool, polled: Option<V>) -> (bool, Polled<V>) {
    if emitted {
        (true, Polled::Finished)
    } else {
        match polled {
            None => (false, Polled::Pending),
            Some(value) => (true, Polled::Ready(value)),
        }
    }
}

impl<F> From<F> for PseudoStream<F> {
    /// A sequence whose one item is still to come.
    fn from(future: F) -> (stream: Self)
        ensures
            !stream.emitted(),
            stream.future() == future,
    {
        PseudoStream { emitted: false, future }
    }
}

impl<F> vstd::std_specs::convert::FromSpecImpl<F> for PseudoStream<F> {
    open spec fn obeys_from_spec() -> bool {
        true
    }

    closed spec fn from_spec(future: F) -> Self {
        PseudoStream { emitted: false, future }
    }
}

impl<F> PseudoStream<F> {
    /// Whether the result has been handed out.
    pub closed spec fn emitted(&self) -> bool {
        self.emitted
    }

    /// The computation.
    pub closed spec fn future(&self) -> F {
        self.future
    }

    /// Whether the next poll looks at what the computation gave.
    pub fn wants_poll(&self) -> (wanted: bool)
        ensures
            wanted == !self.emitted(),
    {
        !self.emitted
    }

    /// The computation, for the driver to poll.
    pub fn future_mut(&mut self) -> (future: &mut F)
        ensures
            *future == old(self).future(),
            final(self).future() == *final(future),
            final(self).emitted() == old(self).emitted(),
    {
        &mut self.future
    }

    /// Answers one poll.
    pub fn poll_next<V>(&mut self, polled: Option<V>) -> (item: Polled<V>)
        ensures
            (final(self).emitted(), item) == pseudo_step(old(self).emitted(), polled),
            final(self).future() == old(self).future(),
    {
        if self.emitted {
            Polled::Finished
        } else {
            match polled {
                None => Polled::Pending,
                Some(value) => {
                    self.emitted = true;
                    Polled::Ready(value)
                },
            }
        }
    }
}

/// Once the result is out, every poll reports the end, whatever it is handed.
pub proof fn lemma_pseudo_ends<V>(polled: Option<V>)
    ensures
        pseudo_step(true, polled) == (true, Polled::<V>::Finished),
{
}

} // verus!
