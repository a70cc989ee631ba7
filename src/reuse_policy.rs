use vstd::prelude::*;

verus! {

/// How a manager picks the next identifier to hand out.
#[derive(Clone, Copy, Debug, PartialEq, Eq, Structural)]
pub enum ReusePolicy {
    /// Always hand out the smallest free identifier.
    ReuseFast,
    /// Walk a cursor round the range and hand out the first free identifier
    /// at or after it, so that a freed identifier is reused only once the
    /// cursor comes back round to it.
    ReuseSlow,
}

} // verus!
