//! The checked failures of the core.
use vstd::prelude::*;

verus! {

/// A precondition that the caller broke, reported instead of acted on.
#[derive(Debug, Clone, Copy, PartialEq, Eq, Structural)]
pub enum CoreError {
    /// An agent index at or beyond the number of agents in the store.
    IndexOutOfRange,
    /// An agent slot at or beyond the grid's fixed agent capacity.
    CapacityExceeded,
}

} // verus!
