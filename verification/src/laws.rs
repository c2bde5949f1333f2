//! The engine's quantified laws: the structural state invariant is
//! preserved by every legal transition (and so by chains of them), the
//! left-right mirror is an involution, the canonical key does not tell a
//! state from its mirror, enumeration and transition are functions of the
//! state, and capturing the certainly-identified enemy lion wins.
use vstd::prelude::*;

use crate::actions::ally_mask;
use crate::actions::dest_mask;
use crate::actions::empty_mask;
use crate::actions::enemy_mask;
use crate::actions::enemy_mask_upto;
use crate::actions::is_legal;
use crate::actions::legal_seq;
use crate::actions::square_of;
use crate::bits::bit8;
use crate::bits::bit16;
use crate::bits::lemma_mirror12_involution;
use crate::bits::lemma_reverse12_shape;
use crate::bits::lemma_single_bit_pop;
use crate::bits::pop16;
use crate::collapse::collapse_pieces;
use crate::encode::canonical_key_spec;
use crate::encode::encode;
use crate::moves::lemma_nexts_low12;
use crate::moves::nexts;
use crate::state::StateModel;
use crate::state::initial_model;
use crate::state::lemma_and16_comm;
use crate::state::lemma_valid_state_parts;
use crate::state::mirror_model;
use crate::state::on_board;
use crate::state::owned;
use crate::state::valid_state;
use crate::transition::capture_model;
use crate::transition::lemma_ally_mask_covers;
use crate::transition::lemma_first_slot_at;
use crate::transition::lemma_mover_found;
use crate::transition::lemma_nth_hand_found;
use crate::transition::move_phase;
use crate::transition::next_model;
use crate::transition::nth_hand_from;
use crate::transition::rotate_model;
use crate::transition::slot_at;

verus! {

/// AND with the empty mask is empty.
proof fn lemma_and_zero(x: u16)
    by (bit_vector)
    ensures
        x & 0u16 == 0,
        0u16 & x == 0,
{
}

/// Two masks holding one common square intersect.
proof fn lemma_share_bit(x: u16, y: u16, t: u16)
    by (bit_vector)
    ensures
        t < 16 && x & (1u16 << t) != 0 && y & (1u16 << t) != 0 ==> x & y != 0,
{
}

/// A set bit of a low-12 mask lies below 12.
proof fn lemma_low12_bit(b: u16, t: u16)
    by (bit_vector)
    ensures
        b & 0xf000 == 0 && (b >> t) & 1 != 0 ==> t < 12,
{
}

/// The empty-square mask lies within the low 12 bits.
proof fn lemma_empty_low12(am: u16, em: u16)
    by (bit_vector)
    ensures
        (!(am | em) & 0xfff) & 0xf000 == 0,
{
}

/// A board covered by an occupancy mask holds no square the mask leaves
/// empty.
proof fn lemma_covered_clear(b: u16, am: u16, em: u16, t: u16)
    by (bit_vector)
    ensures
        ((b | am) == am || (b | em) == em) && ((!(am | em) & 0xfff) >> t) & 1 != 0 ==> b & (1u16
            << t) == 0,
{
}

/// OR of low-12 masks, masked away from the target, keeps the target clear.
proof fn lemma_or5_low12(t0: u16, t1: u16, t2: u16, t3: u16, t4: u16, al: u16)
    by (bit_vector)
    ensures
        t0 & 0xf000 == 0 && t1 & 0xf000 == 0 && t2 & 0xf000 == 0 && t3 & 0xf000 == 0 && t4 & 0xf000
            == 0 ==> ((t0 | t1 | t2 | t3 | t4) & !al) & 0xf000 == 0,
{
}

/// Every non-owned slot's bitboard is covered by the enemy-mask prefix that
/// includes it.
proof fn lemma_enemy_mask_covers(m: StateModel, i: int, k: int)
    requires
        0 <= i < k <= 8,
        !owned(m, i),
    ensures
        (m.bit_boards[i] | enemy_mask_upto(m, k)) == enemy_mask_upto(m, k),
    decreases k,
{
    let b = m.bit_boards[i];
    if i == k - 1 {
        let rest = enemy_mask_upto(m, k - 1);
        assert((b | (rest | b)) == (rest | b)) by (bit_vector);
    } else {
        lemma_enemy_mask_covers(m, i, k - 1);
        let rest = enemy_mask_upto(m, k - 1);
        let x = if !owned(m, k - 1) {
            m.bit_boards[k - 1]
        } else {
            0u16
        };
        assert(((b | rest) == rest) ==> ((b | (rest | x)) == (rest | x))) by (bit_vector);
    }
}

/// The reachable-squares mask of a slot lies within the low 12 bits.
pub proof fn lemma_dest_low12(m: StateModel, i: int)
    ensures
        dest_mask(m, i) & 0xf000 == 0,
{
    let p = m.pieces[i];
    let sq = square_of(m, i);
    lemma_nexts_low12(0, sq);
    lemma_nexts_low12(1, sq);
    lemma_nexts_low12(2, sq);
    lemma_nexts_low12(3, sq);
    lemma_nexts_low12(4, sq);
    let t0 = if bit8(p, 0) {
        nexts(0, sq)
    } else {
        0u16
    };
    let t1 = if bit8(p, 1) {
        nexts(1, sq)
    } else {
        0u16
    };
    let t2 = if bit8(p, 2) {
        nexts(2, sq)
    } else {
        0u16
    };
    let t3 = if bit8(p, 3) {
        nexts(3, sq)
    } else {
        0u16
    };
    let t4 = if bit8(p, 4) {
        nexts(4, sq)
    } else {
        0u16
    };
    lemma_and_zero(0xf000);
    lemma_or5_low12(t0, t1, t2, t3, t4, ally_mask(m));
}

/// In a valid state only the capture slot, if any, stands on the capture
/// square.
proof fn lemma_no_other_at(m: StateModel, t: u8)
    requires
        valid_state(m),
        t < 16,
    ensures
        forall|j: int|
            0 <= j < 8 && j != slot_at(m.bit_boards, t as int) ==> #[trigger] m.bit_boards[j] & (
            1u16 << (t as int)) == 0,
{
    let c = slot_at(m.bit_boards, t as int);
    lemma_first_slot_at(m.bit_boards, t as int, 0);
    assert forall|j: int|
        0 <= j < 8 && j != c implies #[trigger] m.bit_boards[j] & (1u16 << (t as int)) == 0 by {
        if c < 8 && m.bit_boards[j] & (1u16 << (t as int)) != 0 {
            lemma_share_bit(m.bit_boards[j], m.bit_boards[c], t as u16);
            assert(m.bit_boards[j] & m.bit_boards[c] == 0);
        }
    }
}

/// Rotation into the opponent's perspective preserves the structural state
/// invariant.
pub proof fn lemma_rotate_preserves_valid(m: StateModel)
    requires
        valid_state(m),
    ensures
        valid_state(rotate_model(m)),
{
    let r = rotate_model(m);
    assert forall|i: int| 0 <= i < 8 implies pop16(#[trigger] r.bit_boards[i]) <= 1
        && r.bit_boards[i] & 0xf000 == 0 by {
        lemma_reverse12_shape(m.bit_boards[i], m.bit_boards[i]);
    }
    assert forall|i: int, j: int|
        0 <= i < 8 && 0 <= j < 8 && i < j implies #[trigger] r.bit_boards[i]
        & #[trigger] r.bit_boards[j] == 0 by {
        lemma_reverse12_shape(m.bit_boards[i], m.bit_boards[j]);
    }
    lemma_valid_state_parts(r);
}

/// Every legal transition preserves the structural state invariant: each
/// bitboard keeps at most one set bit within the low 12, and no two slots
/// share a square.
pub proof fn lemma_next_preserves_valid(m: StateModel, a: (u8, u8))
    requires
        valid_state(m),
        is_legal(m, a),
    ensures
        valid_state(next_model(m, a)),
{
    lemma_and16_comm();
    lemma_single_bit_pop(a.1 as u16);
    if a.0 < 12 {
        let to = a.1 as int;
        let w = choose|i: int|
            0 <= i < 8 && owned(m, i) && on_board(m, i) && square_of(m, i) == a.0 && bit16(
                #[trigger] dest_mask(m, i),
                a.1 as int,
            );
        lemma_dest_low12(m, w);
        lemma_low12_bit(dest_mask(m, w), a.1 as u16);
        lemma_no_other_at(m, a.1);
        let c = slot_at(m.bit_boards, to);
        lemma_first_slot_at(m.bit_boards, to, 0);
        let m1 = capture_model(m, to);
        lemma_mover_found(m, a);
        let i = slot_at(m1.bit_boards, a.0 as int);
        lemma_first_slot_at(m1.bit_boards, a.0 as int, 0);
        let mp = move_phase(m, a.0 as int, to);
        let narrowed = m1.pieces.update(i, crate::moves::narrow(m1.pieces[i], a.0 as int, to));
        crate::collapse::lemma_collapse_pieces_len(narrowed);
        let collapsed = collapse_pieces(narrowed);
        let placed_pieces = collapsed.update(i, crate::transition::promote(collapsed[i], to));
        let stripped = crate::transition::strip_pieces(
            placed_pieces,
            m1.ownership,
            m1.bit_boards.update(i, (1u16 << to)),
        );
        crate::collapse::lemma_collapse_pieces_len(stripped);
        assert(mp.pieces.len() == 8);
        assert(mp.bit_boards == m1.bit_boards.update(i, (1u16 << to)));
        lemma_single_bit_pop(0);
        lemma_and_zero(0);
        assert forall|j: int| 0 <= j < 8 implies pop16(#[trigger] mp.bit_boards[j]) <= 1
            && mp.bit_boards[j] & 0xf000 == 0 by {
            if j == i {
            } else if c < 8 && j == c {
                lemma_and_zero(0xf000);
            }
        }
        assert forall|j: int, k: int|
            0 <= j < 8 && 0 <= k < 8 && j < k implies #[trigger] mp.bit_boards[j]
            & #[trigger] mp.bit_boards[k] == 0 by {
            lemma_and_zero(mp.bit_boards[j]);
            lemma_and_zero(mp.bit_boards[k]);
            if j == i {
                if !(c < 8 && k == c) {
                    assert(m.bit_boards[k] & (1u16 << to) == 0);
                }
            } else if k == i {
                if !(c < 8 && j == c) {
                    assert(m.bit_boards[j] & (1u16 << to) == 0);
                }
            }
        }
        lemma_valid_state_parts(mp);
        lemma_rotate_preserves_valid(mp);
    } else {
        let to = a.1 as int;
        lemma_empty_low12(ally_mask(m), enemy_mask(m));
        lemma_low12_bit(empty_mask(m), a.1 as u16);
        lemma_nth_hand_found(m, a.0 - 12, 0);
        let i = nth_hand_from(m, a.0 - 12, 0);
        let dp = crate::transition::drop_phase(m, a.0 - 12, to);
        assert(dp.bit_boards == m.bit_boards.update(i, (1u16 << to)));
        assert forall|j: int|
            0 <= j < 8 && j != i implies #[trigger] m.bit_boards[j] & (1u16 << to) == 0 by {
            if owned(m, j) {
                lemma_ally_mask_covers(m, j, 8);
                lemma_covered_clear(m.bit_boards[j], ally_mask(m), enemy_mask(m), a.1 as u16);
            } else {
                lemma_enemy_mask_covers(m, j, 8);
                lemma_covered_clear(m.bit_boards[j], ally_mask(m), enemy_mask(m), a.1 as u16);
            }
        }
        assert forall|j: int| 0 <= j < 8 implies pop16(#[trigger] dp.bit_boards[j]) <= 1
            && dp.bit_boards[j] & 0xf000 == 0 by {}
        assert forall|j: int, k: int|
            0 <= j < 8 && 0 <= k < 8 && j < k implies #[trigger] dp.bit_boards[j]
            & #[trigger] dp.bit_boards[k] == 0 by {}
        lemma_valid_state_parts(dp);
        lemma_rotate_preserves_valid(dp);
    }
}

/// A legally observed move leaves the mover a non-empty kind mask: some
/// still-possible kind justified the step, and narrowing keeps that kind.
pub proof fn lemma_narrow_justified(m: StateModel, i: int, t: u8)
    requires
        0 <= i < 8,
        bit16(dest_mask(m, i), t as int),
    ensures
        crate::moves::narrow(m.pieces[i], square_of(m, i), t as int) != 0,
{
    let p = m.pieces[i];
    let sq = square_of(m, i);
    let al = ally_mask(m);
    let nx0 = nexts(0, sq);
    let nx1 = nexts(1, sq);
    let nx2 = nexts(2, sq);
    let nx3 = nexts(3, sq);
    let nx4 = nexts(4, sq);
    let t0 = if bit8(p, 0) {
        nx0
    } else {
        0u16
    };
    let t1 = if bit8(p, 1) {
        nx1
    } else {
        0u16
    };
    let t2 = if bit8(p, 2) {
        nx2
    } else {
        0u16
    };
    let t3 = if bit8(p, 3) {
        nx3
    } else {
        0u16
    };
    let t4 = if bit8(p, 4) {
        nx4
    } else {
        0u16
    };
    let q0: u8 = if bit8(p, 0) && bit16(nx0, t as int) {
        1
    } else {
        0
    };
    let q1: u8 = if bit8(p, 1) && bit16(nx1, t as int) {
        2
    } else {
        0
    };
    let q2: u8 = if bit8(p, 2) && bit16(nx2, t as int) {
        4
    } else {
        0
    };
    let q3: u8 = if bit8(p, 3) && bit16(nx3, t as int) {
        8
    } else {
        0
    };
    let q4: u8 = if bit8(p, 4) && bit16(nx4, t as int) {
        16
    } else {
        0
    };
    assert(crate::moves::narrow(p, sq, t as int) == (q0 | q1 | q2 | q3 | q4));
    assert((q0 | q1 | q2 | q3 | q4) != 0) by (bit_vector)
        requires
            t0 == (if (p >> 0) & 1 != 0 {
                nx0
            } else {
                0u16
            }),
            t1 == (if (p >> 1) & 1 != 0 {
                nx1
            } else {
                0u16
            }),
            t2 == (if (p >> 2) & 1 != 0 {
                nx2
            } else {
                0u16
            }),
            t3 == (if (p >> 3) & 1 != 0 {
                nx3
            } else {
                0u16
            }),
            t4 == (if (p >> 4) & 1 != 0 {
                nx4
            } else {
                0u16
            }),
            q0 == (if (p >> 0) & 1 != 0 && (nx0 >> t) & 1 != 0 {
                1u8
            } else {
                0u8
            }),
            q1 == (if (p >> 1) & 1 != 0 && (nx1 >> t) & 1 != 0 {
                2u8
            } else {
                0u8
            }),
            q2 == (if (p >> 2) & 1 != 0 && (nx2 >> t) & 1 != 0 {
                4u8
            } else {
                0u8
            }),
            q3 == (if (p >> 3) & 1 != 0 && (nx3 >> t) & 1 != 0 {
                8u8
            } else {
                0u8
            }),
            q4 == (if (p >> 4) & 1 != 0 && (nx4 >> t) & 1 != 0 {
                16u8
            } else {
                0u8
            }),
            (((t0 | t1 | t2 | t3 | t4) & !al) >> t) & 1 != 0,
    ;
}

/// Mirroring a state twice gives back the state.
pub proof fn lemma_mirror_involution(m: StateModel)
    ensures
        mirror_model(mirror_model(m)) == m,
{
    let m2 = mirror_model(mirror_model(m));
    assert forall|i: int| 0 <= i < m.bit_boards.len() implies #[trigger] m2.bit_boards[i]
        == m.bit_boards[i] by {
        lemma_mirror12_involution(m.bit_boards[i]);
    }
    assert(m2.bit_boards =~= m.bit_boards);
    assert(m2 =~= m);
}

/// The canonical key cannot tell a state from its left-right mirror.
pub proof fn lemma_canonical_key_mirror(m: StateModel)
    ensures
        canonical_key_spec(m) == canonical_key_spec(mirror_model(m)),
{
    lemma_mirror_involution(m);
}

/// The canonical key of the initial position equals that of its mirror.
pub proof fn lemma_initial_canonical_mirror()
    ensures
        canonical_key_spec(initial_model()) == canonical_key_spec(mirror_model(initial_model())),
{
    lemma_canonical_key_mirror(initial_model());
}

/// Action enumeration is a function of the state alone: two enumerations of
/// one state are identical.
pub proof fn lemma_legal_actions_deterministic(m: StateModel, r1: Seq<(u8, u8)>, r2: Seq<(u8, u8)>)
    requires
        r1 == legal_seq(m),
        r2 == legal_seq(m),
    ensures
        r1 == r2,
{
}

/// The transition is a function of the state and action alone: two
/// successors of one state under one action are identical.
pub proof fn lemma_next_state_deterministic(m: StateModel, a: (u8, u8), r1: StateModel, r2: StateModel)
    requires
        r1 == next_model(m, a),
        r2 == next_model(m, a),
    ensures
        r1 == r2,
{
}

/// Two legal transitions in a row preserve the structural state invariant.
pub proof fn lemma_two_steps_preserve_valid(m: StateModel, a1: (u8, u8), a2: (u8, u8))
    requires
        valid_state(m),
        is_legal(m, a1),
        is_legal(next_model(m, a1), a2),
    ensures
        valid_state(next_model(m, a1)),
        valid_state(next_model(next_model(m, a1), a2)),
{
    lemma_next_preserves_valid(m, a1);
    lemma_next_preserves_valid(next_model(m, a1), a2);
}

/// In the initial position every origin group satisfies the piece-count
/// bound: for every kind subset, the slots whose unpromoted mask equals it
/// exactly never outnumber its kinds.
pub proof fn lemma_initial_counts_ok()
    ensures
        forall|begin: int, mp: u8|
            (begin == 0 || begin == 4) && 1 <= mp <= 15 ==> crate::collapse::count_exact(
                initial_model().pieces,
                begin,
                mp,
            ) <= crate::bits::pop4(mp),
{
    let pieces = initial_model().pieces;
    assert(crate::state::unpromoted(0x0fu8) == 0x0f) by (bit_vector);
    assert forall|mp: u8| 1 <= mp <= 15 implies crate::bits::pop4(mp) >= 1 && (mp == 0x0f
        ==> crate::bits::pop4(mp) == 4) by {
        assert(1 <= mp <= 15 ==> ((mp >> 0) & 1) + ((mp >> 1) & 1) + ((mp >> 2) & 1) + ((mp >> 3)
            & 1) >= 1) by (bit_vector);
        assert(mp == 0x0f ==> ((mp >> 0) & 1) + ((mp >> 1) & 1) + ((mp >> 2) & 1) + ((mp >> 3) & 1)
            == 4) by (bit_vector);
    }
}

/// Narrowing keeps a kind mask within the old one.
proof fn lemma_narrow_subset(p: u8, from: int, to: int)
    ensures
        (crate::moves::narrow(p, from, to) | p) == p,
{
    let t0: u8 = if bit8(p, 0) && bit16(nexts(0, from), to) {
        1
    } else {
        0
    };
    let t1: u8 = if bit8(p, 1) && bit16(nexts(1, from), to) {
        2
    } else {
        0
    };
    let t2: u8 = if bit8(p, 2) && bit16(nexts(2, from), to) {
        4
    } else {
        0
    };
    let t3: u8 = if bit8(p, 3) && bit16(nexts(3, from), to) {
        8
    } else {
        0
    };
    let t4: u8 = if bit8(p, 4) && bit16(nexts(4, from), to) {
        16
    } else {
        0
    };
    assert((t0 == 0 || (t0 == 1 && (p >> 0) & 1 != 0)) && (t1 == 0 || (t1 == 2 && (p >> 1) & 1
        != 0)) && (t2 == 0 || (t2 == 4 && (p >> 2) & 1 != 0)) && (t3 == 0 || (t3 == 8 && (p >> 3)
        & 1 != 0)) && (t4 == 0 || (t4 == 16 && (p >> 4) & 1 != 0)) ==> (((t0 | t1 | t2 | t3 | t4)
        | p) == p)) by (bit_vector);
}

/// A value within another without lion possibility has none either; neither
/// has a promoted value without it.
proof fn lemma_no_lion_closed(p: u8, q: u8)
    by (bit_vector)
    ensures
        ((q | p) == p && ((p | (p >> 4)) & 0xf) & 8 == 0) ==> ((q | (q >> 4)) & 0xf) & 8 == 0,
        (((p | (p >> 4)) & 0xf) & 8 == 0 && (q == ((p | (p << 4)) & 0x1e) || q == p || q == (p
            & 0xf7))) ==> ((q | (q >> 4)) & 0xf) & 8 == 0,
{
}

/// Setting a bit makes it owned; complementing afterwards disowns it.
proof fn lemma_own_bit(x: u8, c: u8)
    by (bit_vector)
    ensures
        c < 8 ==> ((x | (1u8 << c)) >> c) & 1 != 0,
        c < 8 ==> ((!(x | (1u8 << c))) >> c) & 1 == 0,
{
}

/// The 180-degree rotation of an empty board is empty.
proof fn lemma_reverse12_zero()
    by (bit_vector)
    ensures
        crate::bits::reverse12(0u16) == 0,
{
}

/// Capturing the enemy lion when it is known with certainty wins: after the
/// move the captured slot sits, certainly lion, in the mover's hand, and
/// the rotated successor satisfies the winning predicate. The group premise
/// holds of every exhaustion-stable state with a certainly-lion slot: no
/// other slot of that origin group may then be the lion.
pub proof fn lemma_capture_certain_lion_wins(m: StateModel, a: (u8, u8), g: int)
    requires
        valid_state(m),
        is_legal(m, a),
        a.0 < 12,
        slot_at(m.bit_boards, a.1 as int) < 8,
        m.pieces[slot_at(m.bit_boards, a.1 as int)] == 0x08,
        g == if slot_at(m.bit_boards, a.1 as int) < 4 {
            0int
        } else {
            4int
        },
        forall|j: int|
            g <= j < g + 4 && j != slot_at(m.bit_boards, a.1 as int) ==> crate::state::unpromoted(
                #[trigger] m.pieces[j],
            ) & 8 == 0,
    ensures
        crate::state::won_spec(next_model(m, a)),
{
    let to = a.1 as int;
    let c = slot_at(m.bit_boards, to);
    lemma_first_slot_at(m.bit_boards, to, 0);
    let m1 = capture_model(m, to);
    assert(crate::state::unpromoted(8u8) == 8) by (bit_vector);
    assert(m1.pieces[c] == 8);
    lemma_mover_found(m, a);
    let i = slot_at(m1.bit_boards, a.0 as int);
    lemma_first_slot_at(m1.bit_boards, a.0 as int, 0);
    lemma_and_zero(1u16 << (a.0 as int));
    assert(i != c);
    let narrowed = m1.pieces.update(i, crate::moves::narrow(m1.pieces[i], a.0 as int, to));
    assert(narrowed[c] == 8);
    assert forall|j: int|
        g <= j < g + 4 && j != c implies crate::state::unpromoted(#[trigger] narrowed[j]) & 8
        == 0 by {
        if j == i {
            lemma_narrow_subset(m1.pieces[i], a.0 as int, to);
            lemma_no_lion_closed(m1.pieces[i], narrowed[i]);
        }
    }
    crate::collapse::lemma_collapse_group_keeps_lion(narrowed, 0, g, c);
    let c0 = crate::collapse::collapse_group(narrowed, 0);
    crate::collapse::lemma_collapse_group_keeps_lion(c0, 4, g, c);
    let collapsed = collapse_pieces(narrowed);
    assert(collapsed[c] == 8);
    let placed_pieces = collapsed.update(i, crate::transition::promote(collapsed[i], to));
    assert(placed_pieces[c] == 8);
    assert forall|j: int|
        g <= j < g + 4 && j != c implies crate::state::unpromoted(#[trigger] placed_pieces[j]) & 8
        == 0 by {
        if j == i {
            lemma_no_lion_closed(collapsed[i], placed_pieces[i]);
        }
    }
    let boards2 = m1.bit_boards.update(i, (1u16 << to));
    let stripped = crate::transition::strip_pieces(placed_pieces, m1.ownership, boards2);
    assert(stripped.len() == 8);
    lemma_own_bit(m.ownership, c as u8);
    assert((m1.ownership >> c) & 1 != 0);
    assert(stripped[c] == 8);
    assert forall|j: int|
        g <= j < g + 4 && j != c implies crate::state::unpromoted(#[trigger] stripped[j]) & 8
        == 0 by {
        lemma_no_lion_closed(placed_pieces[j], stripped[j]);
    }
    crate::collapse::lemma_collapse_group_keeps_lion(stripped, 0, g, c);
    let s0 = crate::collapse::collapse_group(stripped, 0);
    crate::collapse::lemma_collapse_group_keeps_lion(s0, 4, g, c);
    let mp = move_phase(m, a.0 as int, to);
    assert(mp.pieces[c] == 8);
    assert(mp.bit_boards[c] == 0);
    let r = rotate_model(mp);
    assert(r.pieces[c] == 8);
    lemma_reverse12_zero();
    assert(r.bit_boards[c] == crate::bits::reverse12(0u16));
    lemma_own_bit(m.ownership, c as u8);
    assert((r.ownership >> c) & 1 == 0);
    assert(!crate::state::owned(r, c) && r.bit_boards[c] == 0 && r.pieces[c] == 0x08);
    assert(crate::state::won_spec(r));
}

/// Both origin groups are at the exhaustion fixed point: no target fires.
pub open spec fn stable_groups(pieces: Seq<u8>) -> bool {
    forall|mp: u8|
        1 <= mp <= 15 ==> !crate::collapse::applicable(pieces, 0, mp)
            && !crate::collapse::applicable(pieces, 4, mp)
}

/// The initial position is exhaustion-stable: the only target whose count
/// suffices is the full mask, and it affects no slot.
pub proof fn lemma_initial_stable()
    ensures
        stable_groups(initial_model().pieces),
{
    let pieces = initial_model().pieces;
    assert(crate::state::unpromoted(0x0fu8) == 0x0f) by (bit_vector);
    assert forall|mp: u8| 1 <= mp <= 15 implies !crate::collapse::applicable(pieces, 0, mp)
        && !crate::collapse::applicable(pieces, 4, mp) by {
        if mp == 0x0f {
            assert(!crate::collapse::affects(0x0fu8, mp));
        } else {
            assert(crate::bits::pop4(mp) >= 1) by (bit_vector)
                requires
                    1 <= mp <= 15,
            ;
            assert(crate::collapse::count_exact(pieces, 0, mp) == 0);
            assert(crate::collapse::count_exact(pieces, 4, mp) == 0);
        }
    }
}

/// Collapsing both groups leaves both at the fixed point.
pub proof fn lemma_collapse_pieces_stable(pieces: Seq<u8>)
    requires
        pieces.len() == 8,
    ensures
        stable_groups(collapse_pieces(pieces)),
{
    let c0 = crate::collapse::collapse_group(pieces, 0);
    crate::collapse::lemma_collapse_group_stable(pieces, 0);
    crate::collapse::lemma_collapse_group_len(pieces, 0);
    let c = crate::collapse::collapse_group(c0, 4);
    crate::collapse::lemma_collapse_group_stable(c0, 4);
    crate::collapse::lemma_collapse_group_len(c0, 4);
    assert forall|i: int| 0 <= i < 4 implies #[trigger] c[i] == c0[i] by {
        crate::collapse::lemma_collapse_group_frame(c0, 4, i);
    }
    assert forall|mp: u8|
        1 <= mp <= 15 implies !crate::collapse::applicable(c, 0, mp) by {
        assert(c[0] == c0[0] && c[1] == c0[1] && c[2] == c0[2] && c[3] == c0[3]);
        assert(!crate::collapse::applicable(c0, 0, mp));
    }
}

/// Every reachable state satisfies the structural invariant and is
/// exhaustion-stable: within each origin group, for every kind subset whose
/// exact-match count reaches its size, no other slot still overlaps it.
pub proof fn lemma_reachable_invariants(n: nat, m: StateModel)
    requires
        crate::search::reachable_in(n, m),
    ensures
        valid_state(m),
        stable_groups(m.pieces),
    decreases n,
{
    crate::search::lemma_reachable_in_valid(n, m);
    if n == 0 {
        lemma_initial_stable();
    } else {
        let p = choose|p: StateModel|
            crate::search::reachable_in((n - 1) as nat, p) && !crate::terminal::terminal_spec(p)
                && crate::search::step_rel(p, m);
        lemma_reachable_invariants((n - 1) as nat, p);
        let a = choose|a: (u8, u8)| is_legal(p, a) && m == next_model(p, a);
        if a.0 < 12 {
            lemma_mover_found(p, a);
            let m1 = capture_model(p, a.1 as int);
            lemma_first_slot_at(p.bit_boards, a.1 as int, 0);
            let i = slot_at(m1.bit_boards, a.0 as int);
            lemma_first_slot_at(m1.bit_boards, a.0 as int, 0);
            let narrowed = m1.pieces.update(
                i,
                crate::moves::narrow(m1.pieces[i], a.0 as int, a.1 as int),
            );
            crate::collapse::lemma_collapse_pieces_len(narrowed);
            let collapsed = collapse_pieces(narrowed);
            let placed_pieces = collapsed.update(
                i,
                crate::transition::promote(collapsed[i], a.1 as int),
            );
            let stripped = crate::transition::strip_pieces(
                placed_pieces,
                m1.ownership,
                m1.bit_boards.update(i, (1u16 << (a.1 as int))),
            );
            assert(stripped.len() == 8);
            lemma_collapse_pieces_stable(stripped);
            assert(m.pieces == collapse_pieces(stripped));
        } else {
            assert(m.pieces == p.pieces);
        }
    }
}

/// In an exhaustion-stable group holding one slot known with certainty to
/// be the lion and no second certainly-lion slot, no other slot keeps any
/// lion possibility: this is the group premise of
/// `lemma_capture_certain_lion_wins`.
pub proof fn lemma_stable_lion_isolated(pieces: Seq<u8>, g: int, c: int)
    requires
        pieces.len() == 8,
        g == 0 || g == 4,
        g <= c < g + 4,
        pieces[c] == 8,
        forall|mp: u8| 1 <= mp <= 15 ==> !crate::collapse::applicable(pieces, g, mp),
        forall|j: int|
            g <= j < g + 4 && j != c ==> crate::state::unpromoted(#[trigger] pieces[j]) != 8,
    ensures
        forall|j: int|
            g <= j < g + 4 && j != c ==> crate::state::unpromoted(#[trigger] pieces[j]) & 8 == 0,
{
    assert(crate::state::unpromoted(8u8) == 8) by (bit_vector);
    assert(crate::bits::pop4(8u8) == 1) by (bit_vector);
    assert(crate::collapse::count_exact(pieces, g, 8) >= 1);
    assert(!crate::collapse::applicable(pieces, g, 8));
    assert forall|j: int|
        g <= j < g + 4 && j != c implies crate::state::unpromoted(#[trigger] pieces[j]) & 8
        == 0 by {
        assert(!crate::collapse::affects(pieces[j], 8));
    }
}

} // verus!
