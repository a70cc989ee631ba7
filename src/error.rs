use vstd::prelude::*;

verus! {

/// What can go wrong when handing out or returning identifiers.
#[derive(Clone, Copy, Debug, PartialEq, Eq, Structural)]
pub enum IdError {
    /// An interval was asked for whose upper bound lies below its lower bound.
    MalformedRange,
    /// An allocation was asked for while no identifier is free.
    PoolExhausted,
    /// An identifier was returned that is not currently handed out.
    NotAllocated,
    /// An identifier lies outside the range that the manager serves.
    OutOfRange,
    /// The first interval or value was asked of an empty set.
    EmptyPool,
}

} // verus!
