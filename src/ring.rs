//! Party identifiers and their positions on the three-party ring.

use vstd::prelude::*;

verus! {

/// The number of parties in the ring.
pub const PARTY_COUNT: u64 = 3;

/// A party identifier is a position on the ring.
pub open spec fn valid_party(p: u64) -> bool {
    p < PARTY_COUNT
}

/// The party that follows `p` on the ring.
pub open spec fn next_of(p: u64) -> u64 {
    ((p + 1) % 3) as u64
}

/// The party that precedes `p` on the ring.
pub open spec fn prev_of(p: u64) -> u64 {
    ((p + 2) % 3) as u64
}

/// One of the two ring neighbours of a party.
#[derive(Clone, Copy, Debug, PartialEq, Eq, Structural)]
pub enum Neighbor {
    Next,
    Prev,
}

/// Which neighbour of `party` a message to or from `peer` travels through:
/// the one that follows `party` when `peer` is that party, else the one before.
pub open spec fn spec_neighbor_for(party: u64, peer: u64) -> Neighbor {
    if peer == next_of(party) {
        Neighbor::Next
    } else {
        Neighbor::Prev
    }
}

/// Selects the channel to `peer` by its ring position relative to `party`.
pub fn neighbor_for(party: u64, peer: u64) -> (r: Neighbor)
    requires
        valid_party(party),
    ensures
        r == spec_neighbor_for(party, peer),
{
    if peer == (party + 1) % 3 {
        Neighbor::Next
    } else {
        Neighbor::Prev
    }
}

} // verus!
