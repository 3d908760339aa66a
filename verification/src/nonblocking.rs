use vstd::prelude::*;

verus! {

/// Why an operation that never waits gave no result.
#[derive(Clone, Copy, Debug, PartialEq, Eq, Structural)]
pub enum NbError<E> {
    /// The operation failed.
    Other(E),
    /// Nothing could be done yet; the caller tries again later.
    WouldBlock,
}

} // verus!
