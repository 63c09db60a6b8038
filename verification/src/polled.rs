use vstd::prelude::*;

verus! {

/// What one poll of a pull-based sequence reports.
#[derive(Debug, PartialEq, Eq)]
pub enum Polled<T> {
    /// Nothing is available yet, and the sequence has not ended.
    Pending,
    /// The next item.
    Ready(T),
    /// The sequence has ended.
    Finished,
}

} // verus!
