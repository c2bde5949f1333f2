//! The game state: eight piece slots with kind-possibility masks, per-slot
//! bitboards, an ownership mask and a turn counter, together with the
//! initial position, the terminal predicates and the left-right mirror.
use vstd::prelude::*;

use crate::bits::mirror12;
use crate::bits::mirror12_exec;
use crate::bits::pop16;

verus! {

/// The mathematical model of a game state: the four fields of `State` with
/// the arrays seen as sequences.
pub struct StateModel {
    /// Kind-possibility mask of each of the eight slots.
    pub pieces: Seq<u8>,
    /// Bit `i` set when slot `i` belongs to the side to move.
    pub ownership: u8,
    /// Single-square board mask of each slot; zero when the slot is off the
    /// board.
    pub bit_boards: Seq<u16>,
    /// Half-moves played so far.
    pub turn: u16,
}

/// A game state, always read from the side to move's perspective: eight
/// piece slots (the first four originate with the first player), their
/// kind-possibility masks and bitboards, the ownership mask and the turn.
#[derive(Clone, Copy, PartialEq, Eq, Debug)]
pub struct State {
    /// Kind-possibility mask of each slot: bit 0 chick, 1 giraffe,
    /// 2 elephant, 3 lion, 4 hen.
    pub pieces: [u8; 8],
    /// Bit `i` set when slot `i` belongs to the side to move.
    pub ownership: u8,
    /// Single-square board mask of each slot; zero when in a hand.
    pub bit_boards: [u16; 8],
    /// Half-moves played so far.
    pub turn: u16,
}

impl View for State {
    type V = StateModel;

    open spec fn view(&self) -> StateModel {
        StateModel {
            pieces: self.pieces@,
            ownership: self.ownership,
            bit_boards: self.bit_boards@,
            turn: self.turn,
        }
    }
}

/// True when slot `i` belongs to the side to move.
pub open spec fn owned(m: StateModel, i: int) -> bool {
    (m.ownership >> i) & 1 != 0
}

/// True when slot `i` stands on the board.
pub open spec fn on_board(m: StateModel, i: int) -> bool {
    m.bit_boards[i] != 0
}

/// Folds a kind mask's hen bit back onto the chick: the four-bit mask of the
/// unpromoted kinds a slot may be.
pub open spec fn unpromoted(p: u8) -> u8 {
    (p | (p >> 4)) & 0xf
}

/// The structural state invariant: eight slots, each bitboard a single
/// square within the low 12 bits or empty, and no two slots on one square.
pub open spec fn valid_state(m: StateModel) -> bool {
    &&& m.pieces.len() == 8
    &&& m.bit_boards.len() == 8
    &&& forall|i: int|
        0 <= i < 8 ==> pop16(#[trigger] m.bit_boards[i]) <= 1 && m.bit_boards[i] & 0xf000 == 0
    &&& forall|i: int, j: int|
        0 <= i < 8 && 0 <= j < 8 && i != j ==> #[trigger] m.bit_boards[i] & #[trigger] m.bit_boards[j]
            == 0
}

/// The initial position as a model: every slot may be any of the four
/// original kinds, the first player owns slots 0 to 3, and the pieces stand
/// on their starting squares.
pub open spec fn initial_model() -> StateModel {
    StateModel {
        pieces: seq![0x0fu8, 0x0fu8, 0x0fu8, 0x0fu8, 0x0fu8, 0x0fu8, 0x0fu8, 0x0fu8],
        ownership: 0x0f,
        bit_boards: seq![1u16, 2u16, 4u16, 16u16, 128u16, 512u16, 1024u16, 2048u16],
        turn: 0,
    }
}

/// The side that just moved has won: some slot it owned before the rotation
/// (so not owned now) sits in its hand and is known with certainty to be the
/// lion — the enemy lion has been captured.
pub open spec fn won_spec(m: StateModel) -> bool {
    exists|i: int|
        0 <= i < 8 && !owned(m, i) && #[trigger] m.bit_boards[i] == 0 && m.pieces[i] == 0x08
}

/// The side to move has lost: some slot it does not own stands on its home
/// row (squares 0 to 2) and might still be the lion, so the opponent can
/// declare the lion arrived.
pub open spec fn lost_spec(m: StateModel) -> bool {
    exists|i: int|
        0 <= i < 8 && !owned(m, i) && #[trigger] m.bit_boards[i] & 0x007 != 0 && m.pieces[i] & 0x08
            != 0
}

/// The same state with every bitboard mirrored left-to-right.
pub open spec fn mirror_model(m: StateModel) -> StateModel {
    StateModel {
        pieces: m.pieces,
        ownership: m.ownership,
        bit_boards: Seq::new(m.bit_boards.len(), |i: int| mirror12(m.bit_boards[i])),
        turn: m.turn,
    }
}

/// Commutativity of 16-bit AND, available as quantified facts.
pub proof fn lemma_and16_comm()
    by (bit_vector)
    ensures
        forall|x: u16, y: u16| #[trigger] (x & y) == y & x,
{
}

/// `valid_state` follows from its thirty-six slot-level conjuncts: each of
/// the eight bitboards a low-12 mask with at most one set bit, and every
/// ordered pair of distinct boards disjoint.
pub proof fn lemma_valid_state_parts(m: StateModel)
    requires
        m.pieces.len() == 8,
        m.bit_boards.len() == 8,
        forall|i: int| 0 <= i < 8 ==> pop16(#[trigger] m.bit_boards[i]) <= 1,
        forall|i: int| 0 <= i < 8 ==> #[trigger] m.bit_boards[i] & 0xf000 == 0,
        forall|i: int, j: int|
            0 <= i < 8 && 0 <= j < 8 && i < j ==> #[trigger] m.bit_boards[i]
                & #[trigger] m.bit_boards[j] == 0,
    ensures
        valid_state(m),
{
    lemma_and16_comm();
    assert forall|i: int, j: int|
        0 <= i < 8 && 0 <= j < 8 && i != j implies #[trigger] m.bit_boards[i]
        & #[trigger] m.bit_boards[j] == 0 by {
        if j < i {
            assert(m.bit_boards[j] & m.bit_boards[i] == 0);
        }
    }
}

/// The initial position satisfies the structural state invariant.
pub proof fn lemma_initial_valid()
    ensures
        valid_state(initial_model()),
{
    let m = initial_model();
    let b0 = m.bit_boards[0];
    let b1 = m.bit_boards[1];
    let b2 = m.bit_boards[2];
    let b3 = m.bit_boards[3];
    let b4 = m.bit_boards[4];
    let b5 = m.bit_boards[5];
    let b6 = m.bit_boards[6];
    let b7 = m.bit_boards[7];
    assert(pop16(b0) <= 1 && b0 & 0xf000 == 0 && pop16(b1) <= 1 && b1 & 0xf000 == 0 && pop16(b2)
        <= 1 && b2 & 0xf000 == 0 && pop16(b3) <= 1 && b3 & 0xf000 == 0 && pop16(b4) <= 1 && b4
        & 0xf000 == 0 && pop16(b5) <= 1 && b5 & 0xf000 == 0 && pop16(b6) <= 1 && b6 & 0xf000 == 0
        && pop16(b7) <= 1 && b7 & 0xf000 == 0 && b0 & b1 == 0 && b0 & b2 == 0 && b0 & b3 == 0 && b0
        & b4 == 0 && b0 & b5 == 0 && b0 & b6 == 0 && b0 & b7 == 0 && b1 & b2 == 0 && b1 & b3 == 0
        && b1 & b4 == 0 && b1 & b5 == 0 && b1 & b6 == 0 && b1 & b7 == 0 && b2 & b3 == 0 && b2 & b4
        == 0 && b2 & b5 == 0 && b2 & b6 == 0 && b2 & b7 == 0 && b3 & b4 == 0 && b3 & b5 == 0 && b3
        & b6 == 0 && b3 & b7 == 0 && b4 & b5 == 0 && b4 & b6 == 0 && b4 & b7 == 0 && b5 & b6 == 0
        && b5 & b7 == 0 && b6 & b7 == 0) by (bit_vector)
        requires
            b0 == 1 && b1 == 2 && b2 == 4 && b3 == 16 && b4 == 128 && b5 == 512 && b6 == 1024 && b7
                == 2048,
    ;
    assert forall|i: int| 0 <= i < 8 implies pop16(#[trigger] m.bit_boards[i]) <= 1 by {
        if i == 0 {
        } else if i == 1 {
        } else if i == 2 {
        } else if i == 3 {
        } else if i == 4 {
        } else if i == 5 {
        } else if i == 6 {
        } else {
        }
    }
    lemma_valid_state_parts(m);
}

/// The rules of the game: construction of the initial state, legal-action
/// enumeration, the move transition and the terminal predicates.
pub struct Game;

impl Game {
    /// Builds the initial position.
    pub fn initial_state() -> (r: State)
        ensures
            r@ == initial_model(),
            valid_state(r@),
    {
        let r = State {
            pieces: [0x0f, 0x0f, 0x0f, 0x0f, 0x0f, 0x0f, 0x0f, 0x0f],
            ownership: 0x0f,
            bit_boards: [1, 2, 4, 16, 128, 512, 1024, 2048],
            turn: 0,
        };
        proof {
            assert(r@.pieces =~= initial_model().pieces);
            assert(r@.bit_boards =~= initial_model().bit_boards);
            lemma_initial_valid();
        }
        r
    }

    /// Decides whether the side that just moved has won: a slot it no longer
    /// owns holds, off the board, the certainly-captured lion.
    pub fn won(state: &State) -> (r: bool)
        ensures
            r == won_spec(state@),
    {
        let mut i: usize = 0;
        while i < 8
            invariant
                i <= 8,
                forall|j: int|
                    0 <= j < i ==> !(!owned(state@, j) && #[trigger] state@.bit_boards[j] == 0
                        && state@.pieces[j] == 0x08),
            decreases 8 - i,
        {
            if (state.ownership >> i) & 1 == 0 && state.bit_boards[i] == 0 && state.pieces[i]
                == 0x08 {
                proof {
                    assert(!owned(state@, i as int) && state@.bit_boards[i as int] == 0
                        && state@.pieces[i as int] == 0x08);
                }
                return true;
            }
            i = i + 1;
        }
        false
    }

    /// Decides whether the side to move has lost: a slot it does not own
    /// stands on its home row and might still be the lion.
    pub fn lost(state: &State) -> (r: bool)
        ensures
            r == lost_spec(state@),
    {
        let mut i: usize = 0;
        while i < 8
            invariant
                i <= 8,
                forall|j: int|
                    0 <= j < i ==> !(!owned(state@, j) && #[trigger] state@.bit_boards[j] & 0x007
                        != 0 && state@.pieces[j] & 0x08 != 0),
            decreases 8 - i,
        {
            if (state.ownership >> i) & 1 == 0 && state.bit_boards[i] & 0x007 != 0
                && state.pieces[i] & 0x08 != 0 {
                proof {
                    assert(!owned(state@, i as int) && state@.bit_boards[i as int] & 0x007 != 0
                        && state@.pieces[i as int] & 0x08 != 0);
                }
                return true;
            }
            i = i + 1;
        }
        false
    }
}

/// Mirrors the board left-to-right: every slot's bitboard has its columns
/// reflected; pieces, ownership and turn stay as they are.
pub fn turn_left_right(state: &State) -> (r: State)
    ensures
        r@ == mirror_model(state@),
{
    let mut r = *state;
    let mut i: usize = 0;
    while i < 8
        invariant
            i <= 8,
            r.pieces@ == state.pieces@,
            r.ownership == state.ownership,
            r.turn == state.turn,
            r.bit_boards@.len() == 8,
            forall|j: int| 0 <= j < i ==> r.bit_boards@[j] == mirror12(#[trigger] state.bit_boards@[j]),
            forall|j: int| i <= j < 8 ==> r.bit_boards@[j] == #[trigger] state.bit_boards@[j],
        decreases 8 - i,
    {
        r.bit_boards[i] = mirror12_exec(state.bit_boards[i]);
        i = i + 1;
    }
    proof {
        assert(r@.bit_boards =~= mirror_model(state@).bit_boards);
    }
    r
}

} // verus!
