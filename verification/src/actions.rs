//! Legal-action enumeration: moves of on-board pieces under the union of
//! their still-possible kinds, and drops of hand pieces onto empty squares.
//! An action is a pair `(from, to)`: `from` below 12 is a board square,
//! `from` at or above 12 is a hand ordinal; `to` is always a board square.
use vstd::prelude::*;

use crate::bits::bit8;
use crate::bits::bit16;
use crate::bits::bit_positions;
use crate::bits::bit_positions_below;
use crate::bits::lemma_bit_positions_below_contains;
use crate::bits::lemma_lowest_bit_from;
use crate::bits::lowest_bit;
use crate::bits::lowest_bit_exec;
use crate::moves::nexts;
use crate::moves::nexts_exec;
use crate::state::Game;
use crate::state::State;
use crate::state::StateModel;
use crate::state::on_board;
use crate::state::owned;

verus! {

/// OR of the bitboards of the owned slots below `k`.
pub open spec fn ally_mask_upto(m: StateModel, k: int) -> u16
    decreases k,
{
    if k <= 0 {
        0u16
    } else {
        ally_mask_upto(m, k - 1) | (if owned(m, k - 1) {
            m.bit_boards[k - 1]
        } else {
            0u16
        })
    }
}

/// The squares occupied by the side to move.
pub open spec fn ally_mask(m: StateModel) -> u16 {
    ally_mask_upto(m, 8)
}

/// OR of the bitboards of the slots below `k` not owned by the side to move.
pub open spec fn enemy_mask_upto(m: StateModel, k: int) -> u16
    decreases k,
{
    if k <= 0 {
        0u16
    } else {
        enemy_mask_upto(m, k - 1) | (if !owned(m, k - 1) {
            m.bit_boards[k - 1]
        } else {
            0u16
        })
    }
}

/// The squares occupied by the opponent.
pub open spec fn enemy_mask(m: StateModel) -> u16 {
    enemy_mask_upto(m, 8)
}

/// The square of slot `i`: the position of its bitboard's one set bit
/// (16 when the slot is off the board).
pub open spec fn square_of(m: StateModel, i: int) -> int {
    lowest_bit(m.bit_boards[i])
}

/// Union of the move-table entries of every kind still possible for a piece
/// with kind mask `p` standing on square `sq`.
pub open spec fn kind_union(p: u8, sq: int) -> u16 {
    (if bit8(p, 0) {
        nexts(0, sq)
    } else {
        0u16
    }) | (if bit8(p, 1) {
        nexts(1, sq)
    } else {
        0u16
    }) | (if bit8(p, 2) {
        nexts(2, sq)
    } else {
        0u16
    }) | (if bit8(p, 3) {
        nexts(3, sq)
    } else {
        0u16
    }) | (if bit8(p, 4) {
        nexts(4, sq)
    } else {
        0u16
    })
}

/// Computes the union of the move-table entries of the possible kinds.
pub fn kind_union_exec(p: u8, sq: u8) -> (r: u16)
    requires
        sq < 16,
    ensures
        r == kind_union(p, sq as int),
{
    let t0: u16 = if (p >> 0u8) & 1 != 0 {
        nexts_exec(0, sq)
    } else {
        0
    };
    let t1: u16 = if (p >> 1u8) & 1 != 0 {
        nexts_exec(1, sq)
    } else {
        0
    };
    let t2: u16 = if (p >> 2u8) & 1 != 0 {
        nexts_exec(2, sq)
    } else {
        0
    };
    let t3: u16 = if (p >> 3u8) & 1 != 0 {
        nexts_exec(3, sq)
    } else {
        0
    };
    let t4: u16 = if (p >> 4u8) & 1 != 0 {
        nexts_exec(4, sq)
    } else {
        0
    };
    t0 | t1 | t2 | t3 | t4
}

/// The squares slot `i` may move to: the kind union of its mask from its
/// square, less the squares its own side occupies.
pub open spec fn dest_mask(m: StateModel, i: int) -> u16 {
    kind_union(m.pieces[i], square_of(m, i)) & !ally_mask(m)
}

/// The moves of slot `i`: one action per reachable square, from the slot's
/// square, in ascending order of destination; none when the slot is not an
/// owned on-board piece.
pub open spec fn slot_moves(m: StateModel, i: int) -> Seq<(u8, u8)> {
    if owned(m, i) && on_board(m, i) {
        bit_positions(dest_mask(m, i)).map(|j: int, t: u8| ((square_of(m, i) as u8), t))
    } else {
        Seq::empty()
    }
}

/// The moves of the slots below `k`, slot by slot.
pub open spec fn moves_upto(m: StateModel, k: int) -> Seq<(u8, u8)>
    decreases k,
{
    if k <= 0 {
        Seq::empty()
    } else {
        moves_upto(m, k - 1) + slot_moves(m, k - 1)
    }
}

/// How many of the slots below `k` the side to move holds in hand.
pub open spec fn hands_upto(m: StateModel, k: int) -> int
    decreases k,
{
    if k <= 0 {
        0
    } else {
        hands_upto(m, k - 1) + (if owned(m, k - 1) && !on_board(m, k - 1) {
            1int
        } else {
            0int
        })
    }
}

/// The number of hand pieces of the side to move.
pub open spec fn num_hands(m: StateModel) -> int {
    hands_upto(m, 8)
}

/// The squares where a piece may be dropped: those no piece occupies.
pub open spec fn empty_mask(m: StateModel) -> u16 {
    !(ally_mask(m) | enemy_mask(m)) & 0xfff
}

/// The drops of hand ordinal `h`: one action per empty square, in ascending
/// order of destination.
pub open spec fn drop_moves(m: StateModel, h: int) -> Seq<(u8, u8)> {
    bit_positions(empty_mask(m)).map(|j: int, t: u8| (((12 + h) as u8), t))
}

/// The drops of the hand ordinals below `h`.
pub open spec fn drops_upto(m: StateModel, h: int) -> Seq<(u8, u8)>
    decreases h,
{
    if h <= 0 {
        Seq::empty()
    } else {
        drops_upto(m, h - 1) + drop_moves(m, h - 1)
    }
}

/// All legal actions, in enumeration order: the moves of the owned on-board
/// slots in slot order, then the drops of the hand ordinals in order.
pub open spec fn legal_seq(m: StateModel) -> Seq<(u8, u8)> {
    moves_upto(m, 8) + drops_upto(m, num_hands(m))
}

/// An action is legal when it moves an owned on-board piece to a square some
/// possible kind reaches and its own side does not hold, or drops one of the
/// side's hand pieces on an empty square.
pub open spec fn is_legal(m: StateModel, a: (u8, u8)) -> bool {
    if a.0 < 12 {
        exists|i: int|
            0 <= i < 8 && owned(m, i) && on_board(m, i) && square_of(m, i) == a.0 && bit16(
                #[trigger] dest_mask(m, i),
                a.1 as int,
            )
    } else {
        a.0 < 12 + num_hands(m) && bit16(empty_mask(m), a.1 as int)
    }
}

/// Computes the OR of the owned slots' bitboards.
fn ally_mask_exec(state: &State) -> (r: u16)
    ensures
        r == ally_mask(state@),
{
    let mut acc: u16 = 0;
    let mut i: usize = 0;
    while i < 8
        invariant
            i <= 8,
            acc == ally_mask_upto(state@, i as int),
        decreases 8 - i,
    {
        acc = acc | (if (state.ownership >> i) & 1 != 0 {
            state.bit_boards[i]
        } else {
            0
        });
        i = i + 1;
    }
    acc
}

/// Computes the OR of the opponent slots' bitboards.
fn enemy_mask_exec(state: &State) -> (r: u16)
    ensures
        r == enemy_mask(state@),
{
    let mut acc: u16 = 0;
    let mut i: usize = 0;
    while i < 8
        invariant
            i <= 8,
            acc == enemy_mask_upto(state@, i as int),
        decreases 8 - i,
    {
        acc = acc | (if (state.ownership >> i) & 1 == 0 {
            state.bit_boards[i]
        } else {
            0
        });
        i = i + 1;
    }
    acc
}

/// Counts the hand pieces of the side to move.
fn num_hands_exec(state: &State) -> (r: usize)
    ensures
        r == num_hands(state@),
{
    let mut acc: usize = 0;
    let mut i: usize = 0;
    while i < 8
        invariant
            i <= 8,
            acc == hands_upto(state@, i as int),
            acc <= i,
        decreases 8 - i,
    {
        if (state.ownership >> i) & 1 != 0 && state.bit_boards[i] == 0 {
            acc = acc + 1;
        }
        i = i + 1;
    }
    acc
}

/// A non-empty 16-bit value has a set bit, so its lowest set bit is in range.
pub proof fn lemma_lowest_bit_nonzero(b: u16)
    requires
        b != 0,
    ensures
        0 <= lowest_bit(b) < 16,
        bit16(b, lowest_bit(b)),
{
    lemma_lowest_bit_from(b, 0);
    if lowest_bit(b) == 16 {
        assert(!bit16(b, 0) && !bit16(b, 1) && !bit16(b, 2) && !bit16(b, 3) && !bit16(b, 4)
            && !bit16(b, 5) && !bit16(b, 6) && !bit16(b, 7) && !bit16(b, 8) && !bit16(b, 9)
            && !bit16(b, 10) && !bit16(b, 11) && !bit16(b, 12) && !bit16(b, 13) && !bit16(b, 14)
            && !bit16(b, 15));
        assert(b == 0) by (bit_vector)
            requires
                !bit16(b, 0) && !bit16(b, 1) && !bit16(b, 2) && !bit16(b, 3) && !bit16(b, 4)
                    && !bit16(b, 5) && !bit16(b, 6) && !bit16(b, 7) && !bit16(b, 8) && !bit16(b, 9)
                    && !bit16(b, 10) && !bit16(b, 11) && !bit16(b, 12) && !bit16(b, 13) && !bit16(
                    b,
                    14,
                ) && !bit16(b, 15),
        ;
    }
}

impl Game {
    /// Enumerates the legal actions of the side to move, in a fixed order:
    /// for each owned on-board slot in slot order, the destinations its
    /// possible kinds reach, ascending; then for each hand ordinal, the
    /// empty squares, ascending.
    pub fn legal_actions(state: &State) -> (r: Vec<(u8, u8)>)
        ensures
            r@ == legal_seq(state@),
    {
        let ally = ally_mask_exec(state);
        let enemy = enemy_mask_exec(state);
        let mut r: Vec<(u8, u8)> = Vec::new();
        let mut i: usize = 0;
        while i < 8
            invariant
                i <= 8,
                ally == ally_mask(state@),
                r@ == moves_upto(state@, i as int),
            decreases 8 - i,
        {
            if (state.ownership >> i) & 1 != 0 && state.bit_boards[i] != 0 {
                proof {
                    lemma_lowest_bit_nonzero(state@.bit_boards[i as int]);
                }
                let sq = lowest_bit_exec(state.bit_boards[i]);
                let sqb = sq as u8;
                let dest = kind_union_exec(state.pieces[i], sqb) & !ally;
                proof {
                    assert(dest == dest_mask(state@, i as int));
                }
                let mut t: u16 = 0;
                while t < 16
                    invariant
                        t <= 16,
                        dest == dest_mask(state@, i as int),
                        sqb == square_of(state@, i as int) as u8,
                        owned(state@, i as int) && on_board(state@, i as int),
                        i < 8,
                        r@ == moves_upto(state@, i as int) + bit_positions_below(
                            dest,
                            t as int,
                        ).map(|j: int, tt: u8| (sqb, tt)),
                    decreases 16 - t,
                {
                    if (dest >> t) & 1 != 0 {
                        r.push((sqb, t as u8));
                        proof {
                            let f = |j: int, tt: u8| (sqb, tt);
                            assert(bit_positions_below(dest, t as int + 1).map(f)
                                =~= bit_positions_below(dest, t as int).map(f).push(
                                (sqb, t as u8),
                            ));
                        }
                    }
                    t = t + 1;
                }
                proof {
                    assert(slot_moves(state@, i as int) =~= bit_positions_below(dest, 16).map(
                        |j: int, tt: u8| (sqb, tt),
                    ));
                    assert(r@ == moves_upto(state@, i as int) + slot_moves(state@, i as int));
                }
            } else {
                proof {
                    assert(slot_moves(state@, i as int) =~= Seq::<(u8, u8)>::empty());
                    assert(r@ =~= moves_upto(state@, i as int) + slot_moves(state@, i as int));
                }
            }
            i = i + 1;
        }
        let nh = num_hands_exec(state);
        let empty = !(ally | enemy) & 0xfff;
        proof {
            lemma_hands_upto_bound(state@, 8);
            assert(empty == empty_mask(state@));
        }
        let mut h: usize = 0;
        while h < nh
            invariant
                h <= nh,
                nh == num_hands(state@),
                nh <= 8,
                empty == empty_mask(state@),
                r@ == moves_upto(state@, 8) + drops_upto(state@, h as int),
            decreases nh - h,
        {
            let fb = (12 + h) as u8;
            let mut t: u16 = 0;
            while t < 16
                invariant
                    t <= 16,
                    h < nh <= 8,
                    fb == (12 + h) as u8,
                    empty == empty_mask(state@),
                    r@ == moves_upto(state@, 8) + drops_upto(state@, h as int)
                        + bit_positions_below(empty, t as int).map(|j: int, tt: u8| (fb, tt)),
                decreases 16 - t,
            {
                if (empty >> t) & 1 != 0 {
                    r.push((fb, t as u8));
                    proof {
                        let f = |j: int, tt: u8| (fb, tt);
                        assert(bit_positions_below(empty, t as int + 1).map(f)
                            =~= bit_positions_below(empty, t as int).map(f).push((fb, t as u8)));
                    }
                }
                t = t + 1;
            }
            proof {
                assert(drop_moves(state@, h as int) =~= bit_positions_below(empty, 16).map(
                    |j: int, tt: u8| (fb, tt),
                ));
                assert(r@ == moves_upto(state@, 8) + drops_upto(state@, h as int + 1));
            }
            h = h + 1;
        }
        r
    }
}

/// `hands_upto` never exceeds its range.
pub proof fn lemma_hands_upto_bound(m: StateModel, k: int)
    requires
        0 <= k,
    ensures
        0 <= hands_upto(m, k) <= k,
    decreases k,
{
    if k > 0 {
        lemma_hands_upto_bound(m, k - 1);
    }
}

/// Membership in a slot's move sequence is exactly "the slot is an owned
/// on-board piece, the action starts on its square, and the destination bit
/// is set in its reachable mask".
pub proof fn lemma_slot_moves_contains(m: StateModel, i: int, a: (u8, u8))
    requires
        0 <= i < 8,
    ensures
        slot_moves(m, i).contains(a) <==> (owned(m, i) && on_board(m, i) && a.0 == square_of(m, i)
            && bit16(dest_mask(m, i), a.1 as int)),
{
    if owned(m, i) && on_board(m, i) {
        lemma_lowest_bit_nonzero(m.bit_boards[i]);
        let sq = square_of(m, i);
        let s = bit_positions(dest_mask(m, i));
        let sm = slot_moves(m, i);
        assert(sm.len() == s.len());
        assert(forall|j: int| 0 <= j < s.len() ==> #[trigger] sm[j] == ((sq as u8), s[j]));
        if sm.contains(a) {
            let j = choose|j: int| 0 <= j < sm.len() && sm[j] == a;
            assert(a == ((sq as u8), s[j]));
            assert(s.contains(s[j]));
            lemma_bit_positions_below_contains(dest_mask(m, i), 16, s[j]);
        }
        if a.0 == square_of(m, i) && bit16(dest_mask(m, i), a.1 as int) {
            crate::bits::lemma_bit_positions_contains(dest_mask(m, i), a.1);
            assert(s.contains(a.1));
            let j = choose|j: int| 0 <= j < s.len() && s[j] == a.1;
            assert(sm[j] == a);
            assert(sm.contains(a));
        }
    }
}

/// Membership in the concatenated move prefix is membership in some slot's
/// moves.
pub proof fn lemma_moves_upto_contains(m: StateModel, k: int, a: (u8, u8))
    requires
        0 <= k <= 8,
    ensures
        moves_upto(m, k).contains(a) <==> (exists|i: int|
            0 <= i < k && #[trigger] slot_moves(m, i).contains(a)),
    decreases k,
{
    if k > 0 {
        lemma_moves_upto_contains(m, k - 1, a);
        let s1 = moves_upto(m, k - 1);
        let s2 = slot_moves(m, k - 1);
        let s = s1 + s2;
        assert(moves_upto(m, k) == s);
        if s.contains(a) {
            let j = choose|j: int| 0 <= j < s.len() && s[j] == a;
            if j < s1.len() {
                assert(s1[j] == a);
                assert(s1.contains(a));
            } else {
                assert(s2[j - s1.len()] == a);
                assert(s2.contains(a));
            }
        }
        if exists|i: int| 0 <= i < k && #[trigger] slot_moves(m, i).contains(a) {
            let i = choose|i: int| 0 <= i < k && #[trigger] slot_moves(m, i).contains(a);
            if i < k - 1 {
                assert(s1.contains(a));
                let j = choose|j: int| 0 <= j < s1.len() && s1[j] == a;
                assert(s[j] == a);
            } else {
                let j = choose|j: int| 0 <= j < s2.len() && s2[j] == a;
                assert(s[s1.len() + j] == a);
            }
            assert(s.contains(a));
        }
    }
}

/// Membership in the concatenated drop prefix: the ordinal is below the
/// prefix bound and the destination square is empty.
pub proof fn lemma_drops_upto_contains(m: StateModel, h: int, a: (u8, u8))
    requires
        0 <= h <= 8,
    ensures
        drops_upto(m, h).contains(a) <==> (12 <= a.0 < 12 + h && bit16(
            empty_mask(m),
            a.1 as int,
        )),
    decreases h,
{
    if h > 0 {
        lemma_drops_upto_contains(m, h - 1, a);
        let s1 = drops_upto(m, h - 1);
        let s2 = drop_moves(m, h - 1);
        let s = s1 + s2;
        assert(drops_upto(m, h) == s);
        let bp = bit_positions(empty_mask(m));
        assert(s2.len() == bp.len());
        assert(forall|j: int|
            0 <= j < bp.len() ==> #[trigger] s2[j] == (((12 + (h - 1)) as u8), bp[j]));
        if s.contains(a) {
            let j = choose|j: int| 0 <= j < s.len() && s[j] == a;
            if j < s1.len() {
                assert(s1[j] == a);
                assert(s1.contains(a));
            } else {
                let jj = j - s1.len();
                assert(s2[jj] == a);
                assert(a == (((12 + (h - 1)) as u8), bp[jj]));
                assert(bp.contains(bp[jj]));
                lemma_bit_positions_below_contains(empty_mask(m), 16, bp[jj]);
            }
        }
        if 12 <= a.0 < 12 + h && bit16(empty_mask(m), a.1 as int) {
            if a.0 < 12 + h - 1 {
                assert(s1.contains(a));
                let j = choose|j: int| 0 <= j < s1.len() && s1[j] == a;
                assert(s[j] == a);
            } else {
                crate::bits::lemma_bit_positions_contains(empty_mask(m), a.1);
                assert(bp.contains(a.1));
                let j = choose|j: int| 0 <= j < bp.len() && bp[j] == a.1;
                assert(s2[j] == a);
                assert(s[s1.len() + j] == a);
            }
            assert(s.contains(a));
        }
    }
}

/// A square-to-square action in a slot's moves starts below square 12.
pub proof fn lemma_slot_moves_from_low(m: StateModel, i: int)
    requires
        0 <= i < 8,
        valid_state_boards(m),
        owned(m, i) && on_board(m, i),
    ensures
        square_of(m, i) < 12,
{
    lemma_lowest_bit_nonzero(m.bit_boards[i]);
    let b = m.bit_boards[i];
    let q = square_of(m, i);
    let qv = (q as u16);
    assert(!((b >> qv) & 1 != 0 && b & 0xf000 == 0 && qv >= 12 && qv < 16)) by (bit_vector);
}

/// The board-shape half of the state invariant, restated for use here.
pub open spec fn valid_state_boards(m: StateModel) -> bool {
    forall|i: int| 0 <= i < 8 ==> #[trigger] m.bit_boards[i] & 0xf000 == 0
}

/// The enumerated sequence holds exactly the legal actions.
pub proof fn lemma_legal_seq_is_legal(m: StateModel, a: (u8, u8))
    requires
        valid_state_boards(m),
    ensures
        legal_seq(m).contains(a) <==> is_legal(m, a),
{
    let s1 = moves_upto(m, 8);
    let s2 = drops_upto(m, num_hands(m));
    let s = s1 + s2;
    lemma_hands_upto_bound(m, 8);
    lemma_moves_upto_contains(m, 8, a);
    lemma_drops_upto_contains(m, num_hands(m), a);
    assert forall|i: int| 0 <= i < 8 implies (#[trigger] slot_moves(m, i).contains(a) <==> (owned(
        m,
        i,
    ) && on_board(m, i) && a.0 == square_of(m, i) && bit16(dest_mask(m, i), a.1 as int))) by {
        lemma_slot_moves_contains(m, i, a);
    }
    if s.contains(a) {
        let j = choose|j: int| 0 <= j < s.len() && s[j] == a;
        if j < s1.len() {
            assert(s1[j] == a);
            assert(s1.contains(a));
            let i = choose|i: int| 0 <= i < 8 && #[trigger] slot_moves(m, i).contains(a);
            lemma_slot_moves_from_low(m, i);
            assert(is_legal(m, a));
        } else {
            assert(s2[j - s1.len()] == a);
            assert(s2.contains(a));
            assert(is_legal(m, a));
        }
    }
    if is_legal(m, a) {
        if a.0 < 12 {
            let i = choose|i: int|
                0 <= i < 8 && owned(m, i) && on_board(m, i) && square_of(m, i) == a.0 && bit16(
                    #[trigger] dest_mask(m, i),
                    a.1 as int,
                );
            assert(slot_moves(m, i).contains(a));
            assert(s1.contains(a));
            let j = choose|j: int| 0 <= j < s1.len() && s1[j] == a;
            assert(s[j] == a);
        } else {
            assert(s2.contains(a));
            let j = choose|j: int| 0 <= j < s2.len() && s2[j] == a;
            assert(s[s1.len() + j] == a);
        }
        assert(s.contains(a));
    }
}

} // verus!
