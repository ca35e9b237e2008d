//! The actions a player may attempt and the typed failures the rules
//! engine reports when an attempt is rejected.

use vstd::prelude::*;
use crate::resources::ResourceKind;

verus! {

/// One move of the game, validated and applied by `State::run`.
#[derive(Debug, Clone, Copy, PartialEq, Eq, Structural)]
pub enum Action {
    /// Take one coin of each of three pairwise-distinct kinds.
    PickThree { one: ResourceKind, two: ResourceKind, three: ResourceKind },
    /// Take two coins of one kind; at least two must remain afterwards.
    PickTwo { color: ResourceKind },
    /// Buy a visible card of a deck (slot index below the window size).
    Purchase { deck: usize, card: usize },
    /// Buy a card previously put aside in the acting player's reserve.
    PurchaseReserved { index: usize },
    /// Move a visible card of a deck into the acting player's reserve.
    Reserve { deck: usize, card: usize },
    /// Advance the turn with no other effect.
    Skip,
}

/// Why an action was rejected.  A rejected action leaves the state
/// exactly as it was.
#[derive(Debug, Clone, Copy, PartialEq, Eq, Structural)]
pub enum ActionError {
    /// A three-coin pick named the same kind twice.
    DuplicatePick,
    /// A three-coin pick named a kind whose bank count is zero.
    NoCoin { kind: ResourceKind },
    /// A two-coin take needs at least four coins of the kind in the bank.
    NotEnoughRemaining { kind: ResourceKind },
    /// The deck index does not address a deck.
    InvalidDeck,
    /// The slot index is outside the visible window.
    NotVisible,
    /// The slot index addresses no card in that deck.
    InvalidCard,
    /// The acting player cannot cover the card's cost.
    NotEnoughResources,
    /// The index addresses no card in the acting player's reserve.
    InvalidReservedIndex,
}

} // verus!
