//! Immutable value records built once at game setup: the cards of the
//! three decks and the nobel tiles.

use vstd::prelude::*;
use crate::resources::{ResourceKind, ResourceMap};

verus! {

/// A purchasable card: a coin cost, a score reward, and the one resource
/// kind it permanently produces once owned.  Never mutated after setup.
#[derive(Debug, Clone, Copy, PartialEq, Eq, Structural)]
pub struct Card {
    pub cost: ResourceMap,
    pub score: u8,
    pub adds: ResourceMap,
}

impl Card {
    /// Builds a card producing one unit of `color`.
    pub fn new(color: ResourceKind, score: u8, cost: ResourceMap) -> (c: Card)
        ensures
            c.cost == cost,
            c.score == score,
            c.adds == ResourceMap::zero().spec_set(color, 1),
    {
        let mut adds = ResourceMap::new();
        adds.set(color, 1);
        Card { cost, score, adds }
    }
}

/// A nobel tile: a cost expressed in card-granted holdings and a fixed
/// score reward.  The rules engine never consumes nobels; the search
/// heuristic reads them as an attraction target.
#[derive(Debug, Clone, Copy, PartialEq, Eq, Structural)]
pub struct Nobel {
    pub cost: ResourceMap,
    pub score: u8,
}

} // verus!
