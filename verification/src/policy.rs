//! The fixed greedy agent policy: play the first legal action in the
//! generator's fixed order, falling back to `Skip` when nothing else is
//! legal.

use vstd::prelude::*;
use crate::action::Action;
use crate::search::{f_snd, legal_moves, moves};
use crate::state::State;

verus! {

/// Picks the first legal action in generation order, or `Skip` when no
/// other action is legal.  The result is always legal.
pub fn logic(state: &State) -> (a: Action)
    requires
        state@.wf(),
    ensures
        state@.action_legal(a),
        legal_moves(state@).len() > 0 ==> a == legal_moves(state@)[0],
        legal_moves(state@).len() == 0 ==> a == Action::Skip,
{
    let mv = moves(state);
    if mv.len() > 0 {
        let a = mv[0].1;
        proof {
            assert(mv@.map_values(f_snd())[0] == a);
        }
        a
    } else {
        Action::Skip
    }
}

} // verus!
