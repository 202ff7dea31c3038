//! Identifiers of loop iterators.

use vstd::prelude::*;

verus! {

/// The slot of a loop iterator in the current frame.
#[derive(Clone, Copy, Debug, PartialEq, Eq, Structural, Hash)]
pub struct IterId {
    pub idx: u32,
}

} // verus!
