use vstd::prelude::*;

verus! {

use crate::RingPosition;

/// Ownership over a position on the ring by a node: a pair of a ring
/// position and the node assigned to it, as returned by lookups and
/// traversals.
#[derive(Debug, Clone, Copy, PartialEq, Eq, Structural)]
pub struct RingToken {
    position: RingPosition,
    node: u64,
}

impl RingToken {
    /// The ring position this token stands at.
    pub closed spec fn spec_position(self) -> RingPosition {
        self.position
    }

    /// The node that owns this token.
    pub closed spec fn spec_node(self) -> u64 {
        self.node
    }

    pub(crate) fn new(position: RingPosition, node: u64) -> (r: Self)
        ensures
            r.spec_position() == position,
            r.spec_node() == node,
    {
        RingToken { position, node }
    }

    /// Returns the position of the node on the ring.
    pub fn position(&self) -> (r: RingPosition)
        ensures
            r == self.spec_position(),
    {
        self.position
    }

    /// Returns the node that owns this token.
    pub fn node(&self) -> (r: u64)
        ensures
            r == self.spec_node(),
    {
        self.node
    }
}

} // verus!
