//! The move transition: capture, observation narrowing, exhaustion collapse,
//! promotion, the hand-lion strip, a second collapse, and the rotation of
//! the board into the other player's perspective.
use vstd::prelude::*;

use crate::bits::bit16;
use crate::bits::pop16;
use crate::bits::reverse12;
use crate::bits::reverse12_exec;
use crate::collapse::collapse_pieces;
use crate::moves::narrow;
use crate::moves::narrow_exec;
use crate::state::Game;
use crate::state::State;
use crate::state::StateModel;
use crate::state::on_board;
use crate::state::owned;
use crate::state::unpromoted;
use crate::state::valid_state;
use crate::actions::is_legal;
use crate::actions::legal_seq;
use crate::actions::lemma_legal_seq_is_legal;
use crate::actions::lemma_lowest_bit_nonzero;
use crate::actions::square_of;

verus! {

/// Testing a bit by shift equals testing it by mask; a set bit is in range.
pub proof fn lemma_bit16_test(b: u16, q: u16)
    by (bit_vector)
    ensures
        q < 16 ==> (((b >> q) & 1 != 0) <==> (b & (1u16 << q) != 0)),
        (b >> q) & 1 != 0 ==> q < 16,
{
}

/// A single-bit mask holding two distinct low bits is impossible.
proof fn lemma_two_bits(b: u16, q1: u16, q2: u16)
    by (bit_vector)
    ensures
        q1 < 16 && q2 < 16 && q1 != q2 && b & (1u16 << q1) != 0 && b & (1u16 << q2) != 0 ==> pop16(
            b,
        ) >= 2,
{
}

/// The first slot at or after `i` whose bitboard holds square `sq`; 8 when
/// none does.
pub open spec fn first_slot_at(boards: Seq<u16>, sq: int, i: int) -> int
    decreases 8 - i,
{
    if i < 0 || i >= 8 {
        8
    } else if boards[i] & (1u16 << sq) != 0 {
        i
    } else {
        first_slot_at(boards, sq, i + 1)
    }
}

/// The first slot whose bitboard holds square `sq`; 8 when none does.
pub open spec fn slot_at(boards: Seq<u16>, sq: int) -> int {
    first_slot_at(boards, sq, 0)
}

/// Below the found slot no bitboard holds the square; the found slot's does.
pub proof fn lemma_first_slot_at(boards: Seq<u16>, sq: int, i: int)
    requires
        0 <= i <= 8,
    ensures
        i <= first_slot_at(boards, sq, i) <= 8,
        forall|j: int| i <= j < first_slot_at(boards, sq, i) ==> boards[j] & (1u16 << sq) == 0,
        first_slot_at(boards, sq, i) < 8 ==> boards[first_slot_at(boards, sq, i)] & (1u16 << sq)
            != 0,
    decreases 8 - i,
{
    if i < 8 && !(boards[i] & (1u16 << sq) != 0) {
        lemma_first_slot_at(boards, sq, i + 1);
    }
}

/// Capturing at square `to`: when a slot stands there, its mask is folded
/// back to the unpromoted kinds, ownership passes to the mover, and the slot
/// leaves the board.
pub open spec fn capture_model(m: StateModel, to: int) -> StateModel {
    let c = slot_at(m.bit_boards, to);
    if c < 8 {
        StateModel {
            pieces: m.pieces.update(c, unpromoted(m.pieces[c])),
            ownership: m.ownership | (1u8 << c),
            bit_boards: m.bit_boards.update(c, 0u16),
            turn: m.turn,
        }
    } else {
        m
    }
}

/// The hand-lion strip: a piece in the mover's hand cannot still be the
/// lion — capturing the lion would have ended the game — so the lion bit is
/// cleared from every owned off-board slot, except one already known with
/// certainty to be the captured lion.
pub open spec fn strip_pieces(pieces: Seq<u8>, ownership: u8, boards: Seq<u16>) -> Seq<u8> {
    pieces.map(
        |j: int, p: u8|
            if (ownership >> j) & 1 != 0 && boards[j] == 0 && p & 8 != 0 && p != 8 {
                p & 0xf7
            } else {
                p
            },
    )
}

/// Promotion on reaching the far row: a possible chick becomes a possible
/// hen; other kinds keep their bits, and the chick bit is dropped.
pub open spec fn promote(p: u8, to: int) -> u8 {
    if 9 <= to < 12 && p & 1 != 0 {
        (p | (p << 4)) & 0x1e
    } else {
        p
    }
}

/// Rotation into the other player's perspective: ownership complemented,
/// every bitboard turned 180 degrees, the turn advanced.
pub open spec fn rotate_model(m: StateModel) -> StateModel {
    StateModel {
        pieces: m.pieces,
        ownership: !m.ownership,
        bit_boards: m.bit_boards.map(|j: int, b: u16| reverse12(b)),
        turn: ((m.turn + 1) as u16),
    }
}

/// The board phase of a move from square `from` to square `to`: capture,
/// narrowing, collapse, promotion and placement, strip, second collapse.
pub open spec fn move_phase(m: StateModel, from: int, to: int) -> StateModel {
    let m1 = capture_model(m, to);
    let i = slot_at(m1.bit_boards, from);
    if i >= 8 {
        m1
    } else {
        let narrowed = m1.pieces.update(i, narrow(m1.pieces[i], from, to));
        let collapsed = collapse_pieces(narrowed);
        let placed = StateModel {
            pieces: collapsed.update(i, promote(collapsed[i], to)),
            ownership: m1.ownership,
            bit_boards: m1.bit_boards.update(i, (1u16 << to)),
            turn: m1.turn,
        };
        let stripped = strip_pieces(placed.pieces, placed.ownership, placed.bit_boards);
        StateModel {
            pieces: collapse_pieces(stripped),
            ownership: placed.ownership,
            bit_boards: placed.bit_boards,
            turn: placed.turn,
        }
    }
}

/// The hand slot of ordinal `n` among the owned off-board slots at or after
/// `i`; 8 when there is none.
pub open spec fn nth_hand_from(m: StateModel, n: int, i: int) -> int
    decreases 8 - i,
{
    if i < 0 || i >= 8 {
        8
    } else if owned(m, i) && m.bit_boards[i] == 0 {
        if n == 0 {
            i
        } else {
            nth_hand_from(m, n - 1, i + 1)
        }
    } else {
        nth_hand_from(m, n, i + 1)
    }
}

/// The drop phase: hand ordinal `n` is placed on square `to`.
pub open spec fn drop_phase(m: StateModel, n: int, to: int) -> StateModel {
    let i = nth_hand_from(m, n, 0);
    if i >= 8 {
        m
    } else {
        StateModel {
            pieces: m.pieces,
            ownership: m.ownership,
            bit_boards: m.bit_boards.update(i, (1u16 << to)),
            turn: m.turn,
        }
    }
}

/// The full transition of a legal action: the board or drop phase, then the
/// rotation into the opponent's perspective.
pub open spec fn next_model(m: StateModel, a: (u8, u8)) -> StateModel {
    if a.0 < 12 {
        rotate_model(move_phase(m, a.0 as int, a.1 as int))
    } else {
        rotate_model(drop_phase(m, a.0 - 12, a.1 as int))
    }
}

/// A hand ordinal below the remaining hand count names an owned off-board
/// slot.
pub proof fn lemma_nth_hand_found(m: StateModel, n: int, i: int)
    requires
        0 <= i <= 8,
        0 <= n < crate::actions::hands_upto(m, 8) - crate::actions::hands_upto(m, i),
    ensures
        i <= nth_hand_from(m, n, i) < 8,
        owned(m, nth_hand_from(m, n, i)),
        m.bit_boards[nth_hand_from(m, n, i)] == 0,
    decreases 8 - i,
{
    crate::actions::lemma_hands_upto_bound(m, i);
    lemma_hands_upto_step(m, i, 8);
    if i < 8 {
        if owned(m, i) && m.bit_boards[i] == 0 {
            if n > 0 {
                lemma_nth_hand_found(m, n - 1, i + 1);
            }
        } else {
            lemma_nth_hand_found(m, n, i + 1);
        }
    }
}

/// Counting hands over a longer prefix only adds the slots in between.
proof fn lemma_hands_upto_step(m: StateModel, i: int, k: int)
    requires
        0 <= i < k,
    ensures
        crate::actions::hands_upto(m, k) - crate::actions::hands_upto(m, i) == crate::actions::hands_upto(
            m,
            k - 1,
        ) - crate::actions::hands_upto(m, i) + (if owned(m, k - 1) && !on_board(m, k - 1) {
            1int
        } else {
            0int
        }),
        crate::actions::hands_upto(m, k) >= crate::actions::hands_upto(m, i),
    decreases k - i,
{
    if i < k - 1 {
        lemma_hands_upto_step(m, i, k - 1);
    }
}

impl Game {
    /// Applies `action` to `state`: captures at the destination, narrows the
    /// mover's kinds by the observed step, runs the exhaustion collapse,
    /// promotes a possible chick on the far row, strips the lion possibility
    /// from the mover's hand, collapses again, and rotates the board for the
    /// opponent; a drop only places the hand piece. Returns the successor
    /// exactly when the action is legal.
    pub fn next_state(state: &State, action: (u8, u8)) -> (r: Option<State>)
        requires
            valid_state(state@),
            state@.turn < 0xffff,
        ensures
            is_legal(state@, action) ==> (r matches Some(ns) && ns@ == next_model(state@, action)),
            !is_legal(state@, action) ==> r is None,
    {
        let legal = Game::legal_actions(state);
        let mut li: usize = 0;
        let mut found: bool = false;
        while li < legal.len()
            invariant
                li <= legal@.len(),
                found <==> exists|j: int| 0 <= j < li && legal@[j] == action,
            decreases legal@.len() - li,
        {
            if legal[li].0 == action.0 && legal[li].1 == action.1 {
                found = true;
            }
            li = li + 1;
        }
        proof {
            assert(found <==> legal_seq(state@).contains(action));
            lemma_legal_seq_is_legal(state@, action);
        }
        if !found {
            return None;
        }
        let mut result = *state;
        if action.0 < 12 {
            proof {
                let w = choose|i: int|
                    0 <= i < 8 && owned(state@, i) && on_board(state@, i) && square_of(state@, i)
                        == action.0 && bit16(#[trigger] crate::actions::dest_mask(state@, i), action.1 as int);
                lemma_lowest_bit_nonzero(state@.bit_boards[w]);
                lemma_bit16_test(state@.bit_boards[w], action.0 as u16);
                lemma_bit16_test(crate::actions::dest_mask(state@, w), action.1 as u16);
            }
            // Capture: the first slot standing on the destination leaves the
            // board into the mover's hand, folded back to unpromoted kinds.
            let c = slot_at_exec(&result, action.1);
            if c < 8 {
                let pc = result.pieces[c];
                result.pieces[c] = (pc | (pc >> 4)) & 0xf;
                result.ownership = result.ownership | (1u8 << (c as u8));
                result.bit_boards[c] = 0;
            }
            proof {
                assert(result@.pieces =~= capture_model(state@, action.1 as int).pieces);
                assert(result@.bit_boards =~= capture_model(state@, action.1 as int).bit_boards);
                assert(result@ =~= capture_model(state@, action.1 as int));
                lemma_mover_found(state@, action);
            }
            // The mover is the slot standing on the origin square.
            let i = slot_at_exec(&result, action.0);
            proof {
                assert(i < 8);
            }
            // Narrowing: only kinds that allow the observed step remain.
            result.pieces[i] = narrow_exec(result.pieces[i], action.0, action.1);
            proof {
                let m1 = capture_model(state@, action.1 as int);
                assert(result@.pieces =~= m1.pieces.update(
                    i as int,
                    narrow(m1.pieces[i as int], action.0 as int, action.1 as int),
                ));
            }
            result = Game::collapse(&result);
            // Promotion: a possible chick reaching the far row may be a hen.
            let p = result.pieces[i];
            if action.1 >= 9 && action.1 < 12 && p & 1 != 0 {
                result.pieces[i] = (p | (p << 4)) & 0x1e;
            }
            result.bit_boards[i] = 1u16 << action.1;
            proof {
                let m1 = capture_model(state@, action.1 as int);
                let narrowed = m1.pieces.update(
                    i as int,
                    narrow(m1.pieces[i as int], action.0 as int, action.1 as int),
                );
                let collapsed = collapse_pieces(narrowed);
                assert(result@.pieces =~= collapsed.update(
                    i as int,
                    promote(collapsed[i as int], action.1 as int),
                ));
                assert(result@.bit_boards =~= m1.bit_boards.update(
                    i as int,
                    (1u16 << (action.1 as int)),
                ));
            }
            // Strip: no piece in the mover's hand may still be the lion,
            // unless it is the certainly-captured lion itself.
            let ghost placed = result@;
            let mut j: usize = 0;
            while j < 8
                invariant
                    j <= 8,
                    result@.ownership == placed.ownership,
                    result@.bit_boards == placed.bit_boards,
                    result@.turn == placed.turn,
                    result@.pieces.len() == 8,
                    placed.pieces.len() == 8,
                    forall|k: int|
                        0 <= k < j ==> result@.pieces[k] == #[trigger] strip_pieces(
                            placed.pieces,
                            placed.ownership,
                            placed.bit_boards,
                        )[k],
                    forall|k: int| j <= k < 8 ==> result@.pieces[k] == #[trigger] placed.pieces[k],
                decreases 8 - j,
            {
                let pj = result.pieces[j];
                if (result.ownership >> j) & 1 != 0 && result.bit_boards[j] == 0 && pj & 8 != 0
                    && pj != 8 {
                    result.pieces[j] = pj & 0xf7;
                }
                j = j + 1;
            }
            proof {
                assert(result@.pieces =~= strip_pieces(
                    placed.pieces,
                    placed.ownership,
                    placed.bit_boards,
                ));
            }
            result = Game::collapse(&result);
            proof {
                assert(result@ =~= move_phase(state@, action.0 as int, action.1 as int));
            }
        } else {
            proof {
                lemma_bit16_test(crate::actions::empty_mask(state@), action.1 as u16);
                lemma_nth_hand_found(state@, action.0 - 12, 0);
            }
            // Drop: the chosen hand piece is placed; nothing is revealed, so
            // no collapse runs.
            let i = nth_hand_exec(&result, action.0 - 12);
            result.bit_boards[i] = 1u16 << action.1;
            proof {
                assert(result@.bit_boards =~= drop_phase(
                    state@,
                    action.0 - 12,
                    action.1 as int,
                ).bit_boards);
                assert(result@ =~= drop_phase(state@, action.0 - 12, action.1 as int));
            }
        }
        // Rotation: the successor is read from the opponent's perspective.
        let ghost pre = result@;
        result.ownership = !result.ownership;
        let mut k: usize = 0;
        while k < 8
            invariant
                k <= 8,
                result@.ownership == !pre.ownership,
                result@.pieces == pre.pieces,
                result@.turn == pre.turn,
                result@.bit_boards.len() == 8,
                pre.bit_boards.len() == 8,
                forall|t: int| 0 <= t < k ==> result@.bit_boards[t] == reverse12(#[trigger] pre.bit_boards[t]),
                forall|t: int| k <= t < 8 ==> result@.bit_boards[t] == #[trigger] pre.bit_boards[t],
            decreases 8 - k,
        {
            result.bit_boards[k] = reverse12_exec(result.bit_boards[k]);
            k = k + 1;
        }
        result.turn = result.turn + 1;
        proof {
            assert(result@.bit_boards =~= rotate_model(pre).bit_boards);
            assert(result@ =~= rotate_model(pre));
            assert(result@ == next_model(state@, action));
        }
        Some(result)
    }
}

/// After a capture at the legal destination, the mover still stands on the
/// origin square and is found there.
pub proof fn lemma_mover_found(m: StateModel, a: (u8, u8))
    requires
        valid_state(m),
        is_legal(m, a),
        a.0 < 12,
    ensures
        slot_at(capture_model(m, a.1 as int).bit_boards, a.0 as int) < 8,
        m.turn == capture_model(m, a.1 as int).turn,
    {
    let w = choose|i: int|
        0 <= i < 8 && owned(m, i) && on_board(m, i) && square_of(m, i) == a.0 && bit16(
            #[trigger] crate::actions::dest_mask(m, i),
            a.1 as int,
        );
    lemma_lowest_bit_nonzero(m.bit_boards[w]);
    lemma_bit16_test(m.bit_boards[w], a.0 as u16);
    assert(m.bit_boards[w] & (1u16 << (a.0 as u16)) != 0);
    let m1 = capture_model(m, a.1 as int);
    let c = slot_at(m.bit_boards, a.1 as int);
    lemma_first_slot_at(m.bit_boards, a.1 as int, 0);
    if c < 8 && c == w {
        // The destination differs from the origin, so one single-bit board
        // cannot hold both squares.
        lemma_bit16_test(crate::actions::dest_mask(m, w), a.1 as u16);
        lemma_ally_not_dest(m, w, a.1 as u16);
        lemma_two_bits(m.bit_boards[w], a.0 as u16, a.1 as u16);
        assert(false);
    }
    assert(m1.bit_boards[w] == m.bit_boards[w]);
    lemma_first_slot_at(m1.bit_boards, a.0 as int, 0);
    if slot_at(m1.bit_boards, a.0 as int) >= 8 {
        assert(m1.bit_boards[w] & (1u16 << (a.0 as int)) == 0);
        assert((1u16 << (a.0 as int)) == (1u16 << (a.0 as u16)));
        assert(false);
    }
}

/// An owned on-board slot's own square is never a legal destination for it:
/// the ally mask covers it.
proof fn lemma_ally_not_dest(m: StateModel, i: int, t: u16)
    requires
        0 <= i < 8,
        owned(m, i),
        on_board(m, i),
        t < 16,
        crate::actions::dest_mask(m, i) & (1u16 << t) != 0,
    ensures
        m.bit_boards[i] & (1u16 << t) == 0,
{
    lemma_ally_mask_covers(m, i, 8);
    let al = crate::actions::ally_mask(m);
    let b = m.bit_boards[i];
    let d = crate::actions::dest_mask(m, i);
    let ku = crate::actions::kind_union(m.pieces[i], square_of(m, i));
    assert(d == ku & !al);
    assert((d & (1u16 << t) != 0 && (b | al) == al) ==> b & (1u16 << t) == 0) by (bit_vector)
        requires
            d == ku & !al,
    ;
}

/// Every owned slot's bitboard is covered by the ally-mask prefix that
/// includes it.
pub proof fn lemma_ally_mask_covers(m: StateModel, i: int, k: int)
    requires
        0 <= i < k <= 8,
        owned(m, i),
    ensures
        (m.bit_boards[i] | crate::actions::ally_mask_upto(m, k)) == crate::actions::ally_mask_upto(
            m,
            k,
        ),
    decreases k,
{
    let b = m.bit_boards[i];
    if i == k - 1 {
        let rest = crate::actions::ally_mask_upto(m, k - 1);
        assert((b | (rest | b)) == (rest | b)) by (bit_vector);
    } else {
        lemma_ally_mask_covers(m, i, k - 1);
        let rest = crate::actions::ally_mask_upto(m, k - 1);
        let x = if owned(m, k - 1) {
            m.bit_boards[k - 1]
        } else {
            0u16
        };
        assert(((b | rest) == rest) ==> ((b | (rest | x)) == (rest | x))) by (bit_vector);
    }
}

/// Finds the first slot standing on square `sq`.
fn slot_at_exec(state: &State, sq: u8) -> (r: usize)
    requires
        sq < 16,
    ensures
        r == slot_at(state@.bit_boards, sq as int),
        r <= 8,
{
    let mut i: usize = 0;
    while i < 8
        invariant
            i <= 8,
            sq < 16,
            first_slot_at(state@.bit_boards, sq as int, 0) == first_slot_at(
                state@.bit_boards,
                sq as int,
                i as int,
            ),
        decreases 8 - i,
    {
        if state.bit_boards[i] & (1u16 << sq) != 0 {
            return i;
        }
        i = i + 1;
    }
    8
}

/// Finds the hand slot of ordinal `n` among the owned off-board slots.
fn nth_hand_exec(state: &State, n: u8) -> (r: usize)
    requires
        nth_hand_from(state@, n as int, 0) < 8,
    ensures
        r == nth_hand_from(state@, n as int, 0),
{
    let mut i: usize = 0;
    let mut left: u8 = n;
    while i < 8
        invariant
            i <= 8,
            left <= n,
            nth_hand_from(state@, n as int, 0) == nth_hand_from(state@, left as int, i as int),
            nth_hand_from(state@, n as int, 0) < 8,
        decreases 8 - i,
    {
        if (state.ownership >> i) & 1 != 0 && state.bit_boards[i] == 0 {
            if left == 0 {
                return i;
            }
            left = left - 1;
        }
        i = i + 1;
    }
    proof {
        assert(false);
    }
    8
}

} // verus!
