//! Rules engine and search agents for a turn-based resource-collection
//! board game: a fixed set of five resource kinds, three card decks with a
//! four-card visible window, a shared coin bank with wild coins, and a
//! round-robin turn order.  The engine validates and applies actions
//! all-or-nothing; a negamax searcher with alpha-beta pruning picks moves.

pub mod action;
pub mod cards;
pub mod player;
pub mod policy;
pub mod resources;
pub mod search;
pub mod state;
pub mod sums;
pub mod wfcheck;

pub use action::{Action, ActionError};
pub use cards::{Card, Nobel};
pub use player::Player;
pub use resources::{ResourceKind, ResourceMap};
pub use state::State;
