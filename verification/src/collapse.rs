//! Exhaustion collapse: within an origin group of four slots, whenever the
//! slots whose unpromoted-kind mask equals some target mask `m` already
//! number as many as `m` has kinds, those slots consume all of `m`'s kinds,
//! so every other slot of the group loses them. The procedure iterates to a
//! fixed point, always clearing the least applicable target first.
use vstd::prelude::*;

use crate::bits::pop4;
use crate::bits::pop8;
use crate::state::Game;
use crate::state::State;
use crate::state::unpromoted;

verus! {

/// The unpromoted-kind mask of slot `begin + j`.
pub open spec fn group_u(pieces: Seq<u8>, begin: int, j: int) -> u8 {
    unpromoted(pieces[begin + j])
}

/// How many slots of the group have unpromoted mask exactly `m`.
pub open spec fn count_exact(pieces: Seq<u8>, begin: int, m: u8) -> int {
    (if group_u(pieces, begin, 0) == m {
        1int
    } else {
        0int
    }) + (if group_u(pieces, begin, 1) == m {
        1int
    } else {
        0int
    }) + (if group_u(pieces, begin, 2) == m {
        1int
    } else {
        0int
    }) + (if group_u(pieces, begin, 3) == m {
        1int
    } else {
        0int
    })
}

/// A slot with kind mask `p` loses possibilities when target `m` fires: its
/// unpromoted mask overlaps `m` without being exactly `m`.
pub open spec fn affects(p: u8, m: u8) -> bool {
    unpromoted(p) != m && unpromoted(p) & m != 0
}

/// Target `m` fires in the group: at least `popcount(m)` slots are exactly
/// `m`, and some slot would lose a possibility.
pub open spec fn applicable(pieces: Seq<u8>, begin: int, m: u8) -> bool {
    &&& count_exact(pieces, begin, m) >= pop4(m)
    &&& (affects(pieces[begin + 0], m) || affects(pieces[begin + 1], m) || affects(
        pieces[begin + 2],
        m,
    ) || affects(pieces[begin + 3], m))
}

/// The least applicable target at or above `m`; 0 when none remains.
pub open spec fn first_target_from(pieces: Seq<u8>, begin: int, m: u8) -> u8
    decreases 16 - m,
{
    if m == 0 || m > 15 {
        0
    } else if applicable(pieces, begin, m) {
        m
    } else if m == 15 {
        0
    } else {
        first_target_from(pieces, begin, (m + 1) as u8)
    }
}

/// Clears target `m` and its promoted counterpart from every affected slot
/// of the group.
pub open spec fn clear_target(pieces: Seq<u8>, begin: int, m: u8) -> Seq<u8> {
    pieces.map(
        |i: int, p: u8|
            if begin <= i < begin + 4 && affects(p, m) {
                p & !(m | (m << 4))
            } else {
                p
            },
    )
}

/// Total number of possibility bits in the group, the termination measure.
pub open spec fn group_bits(pieces: Seq<u8>, begin: int) -> int {
    pop8(pieces[begin + 0]) + pop8(pieces[begin + 1]) + pop8(pieces[begin + 2]) + pop8(
        pieces[begin + 3],
    )
}

/// Clearing a target keeps a slot's bits within the old ones; when the slot
/// overlaps the target it loses at least one bit.
proof fn lemma_clear_pop(p: u8, m: u8)
    by (bit_vector)
    ensures
        pop8(p & !(m | (m << 4))) <= pop8(p),
        ((p | (p >> 4)) & 0xf) & m != 0 ==> pop8(p & !(m | (m << 4))) < pop8(p),
        pop8(p) >= 0,
{
}

/// Firing an applicable target strictly shrinks the group's bit count.
proof fn lemma_clear_target_decreases(pieces: Seq<u8>, begin: int, m: u8)
    requires
        0 <= begin,
        begin + 4 <= pieces.len(),
        applicable(pieces, begin, m),
    ensures
        group_bits(clear_target(pieces, begin, m), begin) < group_bits(pieces, begin),
        group_bits(clear_target(pieces, begin, m), begin) >= 0,
        group_bits(pieces, begin) >= 0,
{
    let c = clear_target(pieces, begin, m);
    assert forall|j: int| 0 <= j < 4 implies pop8(#[trigger] c[begin + j]) <= pop8(
        pieces[begin + j],
    ) && (affects(pieces[begin + j], m) ==> pop8(c[begin + j]) < pop8(pieces[begin + j])) && pop8(
        c[begin + j],
    ) >= 0 && pop8(pieces[begin + j]) >= 0 by {
        lemma_clear_pop(pieces[begin + j], m);
    }
}

/// The group's bit count is never negative.
proof fn lemma_group_bits_nonneg(pieces: Seq<u8>, begin: int)
    ensures
        group_bits(pieces, begin) >= 0,
{
    lemma_clear_pop(pieces[begin + 0], 0);
    lemma_clear_pop(pieces[begin + 1], 0);
    lemma_clear_pop(pieces[begin + 2], 0);
    lemma_clear_pop(pieces[begin + 3], 0);
}

/// Exhaustion collapse of one origin group: fire the least applicable
/// target and repeat until none fires.
pub open spec fn collapse_group(pieces: Seq<u8>, begin: int) -> Seq<u8>
    decreases group_bits(pieces, begin),
        via collapse_group_decreases
{
    if begin < 0 || begin + 4 > pieces.len() {
        pieces
    } else {
        let m = first_target_from(pieces, begin, 1);
        if m == 0 {
            pieces
        } else {
            collapse_group(clear_target(pieces, begin, m), begin)
        }
    }
}

/// A nonzero first target is applicable, and nothing below it is.
pub proof fn lemma_first_target_applicable(pieces: Seq<u8>, begin: int, lo: u8)
    requires
        1 <= lo,
    ensures
        first_target_from(pieces, begin, lo) != 0 ==> lo <= first_target_from(pieces, begin, lo)
            <= 15 && applicable(pieces, begin, first_target_from(pieces, begin, lo)) && (forall|
            mp: u8,
        |
            lo <= mp < first_target_from(pieces, begin, lo) ==> !applicable(pieces, begin, mp)),
        first_target_from(pieces, begin, lo) == 0 ==> (forall|mp: u8|
            lo <= mp <= 15 ==> !applicable(pieces, begin, mp)),
    decreases 16 - lo,
{
    if lo <= 15 && !applicable(pieces, begin, lo) && lo < 15 {
        lemma_first_target_applicable(pieces, begin, (lo + 1) as u8);
    }
}

#[via_fn]
proof fn collapse_group_decreases(pieces: Seq<u8>, begin: int) {
    lemma_group_bits_nonneg(pieces, begin);
    if !(begin < 0 || begin + 4 > pieces.len()) {
        let m = first_target_from(pieces, begin, 1);
        if m != 0 {
            lemma_first_target_applicable(pieces, begin, 1);
            lemma_clear_target_decreases(pieces, begin, m);
        }
    }
}

/// The first target, computed from below `lo`, is `r` when `r` is applicable
/// and nothing in `lo..r` is.
proof fn lemma_first_target_is(pieces: Seq<u8>, begin: int, lo: u8, r: u8)
    requires
        1 <= lo <= r <= 15,
        applicable(pieces, begin, r),
        forall|mp: u8| lo <= mp < r ==> !applicable(pieces, begin, mp),
    ensures
        first_target_from(pieces, begin, lo) == r,
    decreases 16 - lo,
{
    if lo < r {
        lemma_first_target_is(pieces, begin, (lo + 1) as u8, r);
    }
}

/// When nothing at or above `lo` is applicable, the first target is 0.
proof fn lemma_first_target_none(pieces: Seq<u8>, begin: int, lo: u8)
    requires
        1 <= lo,
        forall|mp: u8| lo <= mp <= 15 ==> !applicable(pieces, begin, mp),
    ensures
        first_target_from(pieces, begin, lo) == 0,
    decreases 16 - lo,
{
    if lo < 15 {
        lemma_first_target_none(pieces, begin, (lo + 1) as u8);
    }
}

/// The collapse result of a group is stable: no target fires in it any more.
pub proof fn lemma_collapse_group_stable(pieces: Seq<u8>, begin: int)
    requires
        0 <= begin,
        begin + 4 <= pieces.len(),
    ensures
        forall|mp: u8|
            1 <= mp <= 15 ==> !applicable(collapse_group(pieces, begin), begin, mp),
    decreases group_bits(pieces, begin),
{
    lemma_group_bits_nonneg(pieces, begin);
    let m = first_target_from(pieces, begin, 1);
    lemma_first_target_applicable(pieces, begin, 1);
    if m != 0 {
        lemma_clear_target_decreases(pieces, begin, m);
        assert(clear_target(pieces, begin, m).len() == pieces.len());
        lemma_collapse_group_stable(clear_target(pieces, begin, m), begin);
        assert(collapse_group(pieces, begin) == collapse_group(
            clear_target(pieces, begin, m),
            begin,
        ));
    } else {
        assert(collapse_group(pieces, begin) == pieces);
        assert(forall|mp: u8| 1 <= mp <= 15 ==> !applicable(pieces, begin, mp));
    }
}

/// The collapse of a group keeps the number of slots.
pub proof fn lemma_collapse_group_len(pieces: Seq<u8>, begin: int)
    ensures
        collapse_group(pieces, begin).len() == pieces.len(),
    decreases group_bits(pieces, begin),
{
    lemma_group_bits_nonneg(pieces, begin);
    if !(begin < 0 || begin + 4 > pieces.len()) {
        let m = first_target_from(pieces, begin, 1);
        if m != 0 {
            lemma_first_target_applicable(pieces, begin, 1);
            lemma_clear_target_decreases(pieces, begin, m);
            lemma_collapse_group_len(clear_target(pieces, begin, m), begin);
        }
    }
}

/// Slots outside the group are untouched by its collapse.
pub proof fn lemma_collapse_group_frame(pieces: Seq<u8>, begin: int, i: int)
    requires
        0 <= i < pieces.len(),
        !(begin <= i < begin + 4),
    ensures
        collapse_group(pieces, begin).len() == pieces.len(),
        collapse_group(pieces, begin)[i] == pieces[i],
    decreases group_bits(pieces, begin),
{
    lemma_group_bits_nonneg(pieces, begin);
    lemma_collapse_group_len(pieces, begin);
    if !(begin < 0 || begin + 4 > pieces.len()) {
        let m = first_target_from(pieces, begin, 1);
        if m != 0 {
            lemma_first_target_applicable(pieces, begin, 1);
            lemma_clear_target_decreases(pieces, begin, m);
            lemma_collapse_group_frame(clear_target(pieces, begin, m), begin, i);
        }
    }
}

/// Exhaustion collapse of both origin groups.
pub open spec fn collapse_pieces(pieces: Seq<u8>) -> Seq<u8> {
    collapse_group(collapse_group(pieces, 0), 4)
}

/// The collapse of both groups keeps the number of slots.
pub proof fn lemma_collapse_pieces_len(pieces: Seq<u8>)
    ensures
        collapse_pieces(pieces).len() == pieces.len(),
{
    lemma_collapse_group_len(pieces, 0);
    lemma_collapse_group_len(collapse_group(pieces, 0), 4);
}

/// Subset facts of 8-bit masks: masking keeps a value within itself, and
/// containment is transitive and reflexive.
proof fn lemma_mask_subset(p: u8, x: u8, q: u8, r: u8)
    by (bit_vector)
    ensures
        ((p & x) | p) == p,
        ((q | r) == r && (r | p) == p) ==> (q | p) == p,
        (p | p) == p,
{
}

/// Collapse only removes possibilities: every slot's mask stays within what
/// it was.
pub proof fn lemma_collapse_group_subset(pieces: Seq<u8>, begin: int, i: int)
    requires
        0 <= i < pieces.len(),
    ensures
        (collapse_group(pieces, begin)[i] | pieces[i]) == pieces[i],
    decreases group_bits(pieces, begin),
{
    lemma_group_bits_nonneg(pieces, begin);
    lemma_collapse_group_len(pieces, begin);
    lemma_mask_subset(pieces[i], 0, 0, 0);
    if !(begin < 0 || begin + 4 > pieces.len()) {
        let m = first_target_from(pieces, begin, 1);
        if m != 0 {
            lemma_first_target_applicable(pieces, begin, 1);
            lemma_clear_target_decreases(pieces, begin, m);
            let cleared = clear_target(pieces, begin, m);
            lemma_collapse_group_subset(cleared, begin, i);
            lemma_mask_subset(pieces[i], !(m | (m << 4)), collapse_group(pieces, begin)[i], cleared[i]);
        }
    }
}

/// Collapsing both groups only removes possibilities from every slot.
pub proof fn lemma_collapse_pieces_subset(pieces: Seq<u8>, i: int)
    requires
        0 <= i < pieces.len(),
    ensures
        (collapse_pieces(pieces)[i] | pieces[i]) == pieces[i],
{
    let c0 = collapse_group(pieces, 0);
    lemma_collapse_group_len(pieces, 0);
    lemma_collapse_group_subset(pieces, 0, i);
    lemma_collapse_group_subset(c0, 4, i);
    lemma_mask_subset(pieces[i], 0, collapse_pieces(pieces)[i], c0[i]);
}

/// A slot certainly holding the lion, alone in its group with any lion
/// possibility, is untouched by exhaustion collapse, and no other slot of
/// its group gains the possibility.
pub proof fn lemma_collapse_group_keeps_lion(pieces: Seq<u8>, begin: int, g: int, c: int)
    requires
        0 <= begin,
        begin + 4 <= pieces.len(),
        0 <= g,
        g + 4 <= pieces.len(),
        begin == g || g + 4 <= begin || begin + 4 <= g,
        g <= c < g + 4,
        pieces[c] == 8,
        forall|j: int| g <= j < g + 4 && j != c ==> unpromoted(#[trigger] pieces[j]) & 8 == 0,
    ensures
        collapse_group(pieces, begin).len() == pieces.len(),
        collapse_group(pieces, begin)[c] == 8,
        forall|j: int|
            g <= j < g + 4 && j != c ==> unpromoted(#[trigger] collapse_group(pieces, begin)[j])
                & 8 == 0,
    decreases group_bits(pieces, begin),
{
    lemma_group_bits_nonneg(pieces, begin);
    lemma_collapse_group_len(pieces, begin);
    if begin != g {
        assert forall|j: int| g <= j < g + 4 implies #[trigger] collapse_group(pieces, begin)[j]
            == pieces[j] by {
            lemma_collapse_group_frame(pieces, begin, j);
        }
    } else {
        let mf = first_target_from(pieces, begin, 1);
        lemma_first_target_applicable(pieces, begin, 1);
        if mf != 0 {
            let cleared = clear_target(pieces, begin, mf);
            lemma_clear_target_decreases(pieces, begin, mf);
            assert(unpromoted(8u8) == 8) by (bit_vector);
            // The fired target cannot involve the lion: no slot's unpromoted
            // mask equals it exactly, so its count is zero.
            if mf & 8 != 0 && mf != 8 {
                assert(pop4(mf) >= 1) by (bit_vector)
                    requires
                        1 <= mf <= 15,
                ;
                assert forall|j: int| g <= j < g + 4 implies unpromoted(
                    #[trigger] pieces[j],
                ) != mf by {
                    if j != c {
                        let p = pieces[j];
                        assert((((p | (p >> 4)) & 0xf) & 8 == 0 && mf & 8 != 0) ==> ((p | (p >> 4))
                            & 0xf) != mf) by (bit_vector);
                    }
                }
                assert(count_exact(pieces, begin, mf) == 0);
                assert(false);
            }
            if mf == 8 {
                assert forall|j: int|
                    g <= j < g + 4 implies !affects(#[trigger] pieces[j], mf) by {
                    if j != c {
                        let p = pieces[j];
                        assert((((p | (p >> 4)) & 0xf) & 8 == 0) ==> !((p | (p >> 4)) & 0xf != 8
                            && ((p | (p >> 4)) & 0xf) & 8 != 0)) by (bit_vector);
                    }
                }
                assert(!applicable(pieces, begin, mf));
                assert(false);
            }
            // So the lion slot is unaffected, and clearing only removes bits.
            assert(!affects(pieces[c], mf)) by {
                assert((mf & 8 == 0) ==> !(8u8 != mf && 8u8 & mf != 0)) by (bit_vector);
            }
            assert(cleared[c] == 8);
            assert forall|j: int|
                g <= j < g + 4 && j != c implies unpromoted(#[trigger] cleared[j]) & 8 == 0 by {
                let p = pieces[j];
                let x = !(mf | (mf << 4));
                assert((((p | (p >> 4)) & 0xf) & 8 == 0) ==> ((((p & x) | ((p & x) >> 4)) & 0xf)
                    & 8 == 0)) by (bit_vector);
            }
            lemma_collapse_group_keeps_lion(cleared, begin, g, c);
        }
    }
}

/// Decides whether target `m` fires in the group at `begin`.
fn applicable_exec(state: &State, begin: usize, m: u8) -> (r: bool)
    requires
        begin == 0 || begin == 4,
    ensures
        r == applicable(state@.pieces, begin as int, m),
{
    let p0 = state.pieces[begin + 0];
    let p1 = state.pieces[begin + 1];
    let p2 = state.pieces[begin + 2];
    let p3 = state.pieces[begin + 3];
    let u0 = (p0 | (p0 >> 4)) & 0xf;
    let u1 = (p1 | (p1 >> 4)) & 0xf;
    let u2 = (p2 | (p2 >> 4)) & 0xf;
    let u3 = (p3 | (p3 >> 4)) & 0xf;
    let cnt: u32 = (if u0 == m {
        1
    } else {
        0
    }) + (if u1 == m {
        1
    } else {
        0
    }) + (if u2 == m {
        1
    } else {
        0
    }) + (if u3 == m {
        1
    } else {
        0
    });
    let pm: u32 = (((m >> 0u8) & 1) as u32) + (((m >> 1u8) & 1) as u32) + (((m >> 2u8) & 1) as u32)
        + (((m >> 3u8) & 1) as u32);
    proof {
        assert(pm == pop4(m));
        assert(cnt == count_exact(state@.pieces, begin as int, m));
    }
    let af = (u0 != m && u0 & m != 0) || (u1 != m && u1 & m != 0) || (u2 != m && u2 & m != 0) || (u3
        != m && u3 & m != 0);
    cnt >= pm && af
}

/// Runs the group at `begin` to its fixed point, least target first.
fn collapse_group_exec(state: &mut State, begin: usize)
    requires
        begin == 0 || begin == 4,
    ensures
        final(state).pieces@ == collapse_group(old(state).pieces@, begin as int),
        final(state).ownership == old(state).ownership,
        final(state).bit_boards == old(state).bit_boards,
        final(state).turn == old(state).turn,
{
    loop
        invariant
            begin == 0 || begin == 4,
            collapse_group(state.pieces@, begin as int) == collapse_group(
                old(state).pieces@,
                begin as int,
            ),
            state.ownership == old(state).ownership,
            state.bit_boards == old(state).bit_boards,
            state.turn == old(state).turn,
        decreases group_bits(state.pieces@, begin as int),
    {
        proof {
            lemma_group_bits_nonneg(state.pieces@, begin as int);
        }
        let mut m: u8 = 1;
        let mut found: u8 = 0;
        while found == 0 && m <= 15
            invariant
                begin == 0 || begin == 4,
                1 <= m <= 16,
                found == 0 ==> forall|mp: u8|
                    1 <= mp < m ==> !applicable(state.pieces@, begin as int, mp),
                found != 0 ==> 1 <= found <= 15 && applicable(state.pieces@, begin as int, found)
                    && (forall|mp: u8|
                    1 <= mp < found ==> !applicable(state.pieces@, begin as int, mp)),
            decreases 16 - m + (if found == 0 {
                1int
            } else {
                0int
            }),
        {
            if applicable_exec(state, begin, m) {
                found = m;
            } else {
                m = m + 1;
            }
        }
        if found == 0 {
            proof {
                lemma_first_target_none(state.pieces@, begin as int, 1);
                assert(collapse_group(state.pieces@, begin as int) == state.pieces@);
            }
            return ;
        }
        proof {
            lemma_first_target_is(state.pieces@, begin as int, 1, found);
            lemma_clear_target_decreases(state.pieces@, begin as int, found);
        }
        let ghost before = state.pieces@;
        let keep: u8 = !(found | (found << 4));
        let p0 = state.pieces[begin + 0];
        if (p0 | (p0 >> 4)) & 0xf != found && ((p0 | (p0 >> 4)) & 0xf) & found != 0 {
            state.pieces[begin + 0] = p0 & keep;
        }
        let p1 = state.pieces[begin + 1];
        if (p1 | (p1 >> 4)) & 0xf != found && ((p1 | (p1 >> 4)) & 0xf) & found != 0 {
            state.pieces[begin + 1] = p1 & keep;
        }
        let p2 = state.pieces[begin + 2];
        if (p2 | (p2 >> 4)) & 0xf != found && ((p2 | (p2 >> 4)) & 0xf) & found != 0 {
            state.pieces[begin + 2] = p2 & keep;
        }
        let p3 = state.pieces[begin + 3];
        if (p3 | (p3 >> 4)) & 0xf != found && ((p3 | (p3 >> 4)) & 0xf) & found != 0 {
            state.pieces[begin + 3] = p3 & keep;
        }
        proof {
            assert(state.pieces@ =~= clear_target(before, begin as int, found));
        }
    }
}

impl Game {
    /// Runs the exhaustion collapse over both origin groups, returning the
    /// state with every forced possibility removed; bitboards, ownership and
    /// turn stay as they are.
    pub fn collapse(state: &State) -> (r: State)
        ensures
            r@.pieces == collapse_pieces(state@.pieces),
            r@.ownership == state@.ownership,
            r@.bit_boards == state@.bit_boards,
            r@.turn == state@.turn,
    {
        let mut result = *state;
        collapse_group_exec(&mut result, 0);
        collapse_group_exec(&mut result, 4);
        result
    }
}

} // verus!
