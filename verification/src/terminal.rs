//! The enumerator's terminal predicate: a state is terminal when some legal
//! action captures the enemy lion outright — the mover wins — or, failing
//! that, when an opponent piece that may be the lion already stands on the
//! side to move's home row.
use vstd::prelude::*;

use crate::actions::is_legal;
use crate::actions::legal_seq;
use crate::actions::lemma_legal_seq_is_legal;
use crate::state::Game;
use crate::state::State;
use crate::state::StateModel;
use crate::state::lost_spec;
use crate::state::valid_state;
use crate::state::won_spec;
use crate::transition::next_model;

verus! {

/// A state is terminal when a winning capture exists or the side to move
/// has already lost.
pub open spec fn terminal_spec(m: StateModel) -> bool {
    (exists|a: (u8, u8)| is_legal(m, a) && won_spec(next_model(m, a))) || lost_spec(m)
}

/// Decides whether a state is terminal: tries every legal action for an
/// immediate win, then falls back to the loss predicate.
pub fn is_terminal_state(state: &State) -> (r: bool)
    requires
        valid_state(state@),
        state@.turn < 0xffff,
    ensures
        r == terminal_spec(state@),
{
    let legal = Game::legal_actions(state);
    let mut li: usize = 0;
    while li < legal.len()
        invariant
            li <= legal@.len(),
            legal@ == legal_seq(state@),
            valid_state(state@),
            state@.turn < 0xffff,
            forall|j: int|
                0 <= j < li ==> !(is_legal(state@, #[trigger] legal@[j]) && won_spec(
                    next_model(state@, legal@[j]),
                )),
        decreases legal@.len() - li,
    {
        let a = legal[li];
        proof {
            assert(legal_seq(state@).contains(a));
            lemma_legal_seq_is_legal(state@, a);
        }
        match Game::next_state(state, a) {
            Some(ns) => {
                if Game::won(&ns) {
                    return true;
                }
            },
            None => {
                proof {
                    assert(false);
                }
            },
        }
        li = li + 1;
    }
    proof {
        assert forall|a: (u8, u8)| is_legal(state@, a) implies !won_spec(
            next_model(state@, a),
        ) by {
            lemma_legal_seq_is_legal(state@, a);
            let j = choose|j: int| 0 <= j < legal@.len() && legal@[j] == a;
            assert(!(is_legal(state@, legal@[j]) && won_spec(next_model(state@, legal@[j]))));
        }
    }
    Game::lost(state)
}

} // verus!
