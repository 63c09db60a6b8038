use vstd::prelude::*;

use crate::polled::Polled;

verus! {

/// A sequence of results with one function for its values and one for its
/// errors.
pub struct MapRes<S, F, G> {
    stream: S,
    on_ok: F,
    on_err: G,
}

/// A sequence of optional values with a function for the values.
pub struct MapOption<S, F> {
    stream: S,
    on_some: F,
}

impl<S, F, G> MapRes<S, F, G> {
    /// The inner sequence.
    pub closed spec fn stream(&self) -> S {
        self.stream
    }

    pub closed spec fn on_ok(&self) -> F {
        self.on_ok
    }

    pub closed spec fn on_err(&self) -> G {
        self.on_err
    }

    /// The inner sequence, for the driver to poll.
    pub fn stream_mut(&mut self) -> (stream: &mut S)
        ensures
            *stream == old(self).stream(),
            final(self).stream() == *final(stream),
            final(self).on_ok() == old(self).on_ok(),
            final(self).on_err() == old(self).on_err(),
    {
        &mut self.stream
    }

    /// Answers one poll: a value goes through `on_ok`, an error through
    /// `on_err`, and anything else is handed on.
    pub fn poll_next<T, E, U, V>(&self, polled: Polled<Result<T, E>>) -> (item: Polled<
        Result<U, V>,
    >) where F: Fn(T) -> U, G: Fn(E) -> V
        requires
            polled matches Polled::Ready(Ok(value)) ==> call_requires(self.on_ok(), (value,)),
            polled matches Polled::Ready(Err(error)) ==> call_requires(self.on_err(), (error,)),
        ensures
            match polled {
                Polled::Pending => item is Pending,
                Polled::Ready(Ok(value)) => {
                    &&& item matches Polled::Ready(Ok(mapped))
                    &&& call_ensures(self.on_ok(), (value,), mapped)
                },
                Polled::Ready(Err(error)) => {
                    &&& item matches Polled::Ready(Err(mapped))
                    &&& call_ensures(self.on_err(), (error,), mapped)
                },
                Polled::Finished => item is Finished,
            },
    {
        match polled {
            Polled::Pending => Polled::Pending,
            Polled::Ready(Ok(value)) => Polled::Ready(Ok((self.on_ok)(value))),
            Polled::Ready(Err(error)) => Polled::Ready(Err((self.on_err)(error))),
            Polled::Finished => Polled::Finished,
        }
    }
}

impl<S, F> MapOption<S, F> {
    /// The inner sequence.
    pub closed spec fn stream(&self) -> S {
        self.stream
    }

    pub closed spec fn on_some(&self) -> F {
        self.on_some
    }

    /// The inner sequence, for the driver to poll.
    pub fn stream_mut(&mut self) -> (stream: &mut S)
        ensures
            *stream == old(self).stream(),
            final(self).stream() == *final(stream),
            final(self).on_some() == old(self).on_some(),
    {
        &mut self.stream
    }

    /// Answers one poll: a value goes through `on_some`, and anything else is
    /// handed on.
    pub fn poll_next<T, U>(&self, polled: Polled<Option<T>>) -> (item: Polled<Option<U>>) where
        F: Fn(T) -> U,

        requires
            polled matches Polled::Ready(Some(value)) ==> call_requires(self.on_some(), (value,)),
        ensures
            match polled {
                Polled::Pending => item is Pending,
                Polled::Ready(Some(value)) => {
                    &&& item matches Polled::Ready(Some(mapped))
                    &&& call_ensures(self.on_some(), (value,), mapped)
                },
                Polled::Ready(None) => item == Polled::Ready(None::<U>),
                Polled::Finished => item is Finished,
            },
    {
        match polled {
            Polled::Pending => Polled::Pending,
            Polled::Ready(Some(value)) => Polled::Ready(Some((self.on_some)(value))),
            Polled::Ready(None) => Polled::Ready(None),
            Polled::Finished => Polled::Finished,
        }
    }
}

/// The two mappings, as methods of whatever is to be mapped.
pub trait StreamInnerMap: Sized {
    fn inner_res_map<F, G>(self, on_ok: F, on_err: G) -> (mapped: MapRes<Self, F, G>)
        ensures
            mapped.stream() == self,
            mapped.on_ok() == on_ok,
            mapped.on_err() == on_err,
    {
        MapRes { stream: self, on_ok, on_err }
    }

    fn inner_option_map<F>(self, on_some: F) -> (mapped: MapOption<Self, F>)
        ensures
            mapped.stream() == self,
            mapped.on_some() == on_some,
    {
        MapOption { stream: self, on_some }
    }
}

impl<S> StreamInnerMap for S {

}

} // verus!
