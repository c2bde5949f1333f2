//! The 128-bit state encoding and its mirror-canonical form: each slot packs
//! into a 7-bit descriptor; on-board descriptors sit at seven times their
//! square, hand descriptors are sorted and packed above bit 84; the
//! canonical key is the smaller of the encodings of a state and its mirror.
use vstd::prelude::*;

use crate::bits::pop4;
use crate::bits::lowest_bit_exec;
use crate::state::State;
use crate::state::StateModel;
use crate::state::mirror_model;
use crate::state::owned;
use crate::state::turn_left_right;
use crate::actions::square_of;

verus! {

/// The ascending order on 128-bit values, as one shared function value.
pub open spec fn u128_leq() -> spec_fn(u128, u128) -> bool {
    |x: u128, y: u128| x <= y
}

/// The 7-bit descriptor of slot `i`: its five kind bits, bit 5 set when the
/// slot is of opponent origin with more than one unpromoted possibility, and
/// bit 6 set when the side to move does not own it.
pub open spec fn descriptor(m: StateModel, i: int) -> u128 {
    ((m.pieces[i] as u128) & 0x1f) | (if pop4(m.pieces[i]) == 1 || i < 4 {
        0u128
    } else {
        32u128
    }) | (if owned(m, i) {
        0u128
    } else {
        64u128
    })
}

/// OR of the on-board descriptors below slot `k`, each at seven times its
/// square.
pub open spec fn board_acc(m: StateModel, k: int) -> u128
    decreases k,
{
    if k <= 0 {
        0u128
    } else {
        board_acc(m, k - 1) | (if m.bit_boards[k - 1] != 0 {
            descriptor(m, k - 1) << (7 * square_of(m, k - 1))
        } else {
            0u128
        })
    }
}

/// The descriptors of the off-board slots below `k`, in slot order.
pub open spec fn hand_descs(m: StateModel, k: int) -> Seq<u128>
    decreases k,
{
    if k <= 0 {
        Seq::empty()
    } else if m.bit_boards[k - 1] == 0 {
        hand_descs(m, k - 1).push(descriptor(m, k - 1))
    } else {
        hand_descs(m, k - 1)
    }
}

/// Packs a sequence of descriptors at seven bits apiece, lowest first.
pub open spec fn pack_acc(s: Seq<u128>, k: int) -> u128
    decreases k,
{
    if k <= 0 {
        0u128
    } else {
        pack_acc(s, k - 1) | (s[k - 1] << (7 * (k - 1)))
    }
}

/// The 128-bit encoding of a state: the board descriptors in place, and the
/// sorted hand descriptors packed above bit 84.
pub open spec fn encode(m: StateModel) -> u128 {
    let sorted = hand_descs(m, 8).sort_by(u128_leq());
    board_acc(m, 8) | (pack_acc(sorted, sorted.len() as int) << 84)
}

/// The mirror-canonical key: the smaller of the encodings of the state and
/// of its left-right mirror.
pub open spec fn canonical_key_spec(m: StateModel) -> u128 {
    if encode(m) <= encode(mirror_model(m)) {
        encode(m)
    } else {
        encode(mirror_model(m))
    }
}

/// Relies on itertools' `sorted`: it returns the input elements in ascending
/// `Ord` order, so the result is a permutation of the input that is sorted.
#[verifier::external_body]
fn sorted_u128s(v: &Vec<u128>) -> (r: Vec<u128>)
    ensures
        r@.to_multiset() == v@.to_multiset(),
        vstd::relations::sorted_by(r@, u128_leq()),
{
    itertools::Itertools::sorted(v.iter().copied()).collect()
}

/// Computes the descriptor of slot `i`.
fn descriptor_exec(state: &State, i: usize) -> (r: u128)
    requires
        i < 8,
    ensures
        r == descriptor(state@, i as int),
{
    let p = state.pieces[i];
    let pc: u32 = (((p >> 0u8) & 1) as u32) + (((p >> 1u8) & 1) as u32) + (((p >> 2u8) & 1) as u32)
        + (((p >> 3u8) & 1) as u32);
    proof {
        assert(pc == pop4(p));
    }
    ((p as u128) & 0x1f) | (if pc == 1 || i < 4 {
        0u128
    } else {
        32u128
    }) | (if (state.ownership >> i) & 1 != 0 {
        0u128
    } else {
        64u128
    })
}

/// Encodes a state into its 128-bit integer form.
pub fn convert_state_to_u128(state: &State) -> (r: u128)
    ensures
        r == encode(state@),
{
    let mut acc: u128 = 0;
    let mut i: usize = 0;
    while i < 8
        invariant
            i <= 8,
            acc == board_acc(state@, i as int),
        decreases 8 - i,
    {
        acc = acc | (if state.bit_boards[i] != 0 {
            proof {
                crate::bits::lemma_lowest_bit_from(state@.bit_boards[i as int], 0);
            }
            let sq = lowest_bit_exec(state.bit_boards[i]);
            descriptor_exec(state, i) << (7 * sq) as u32
        } else {
            0u128
        });
        i = i + 1;
    }
    let mut hv: Vec<u128> = Vec::new();
    let mut j: usize = 0;
    while j < 8
        invariant
            j <= 8,
            hv@ == hand_descs(state@, j as int),
            hv@.len() <= j,
        decreases 8 - j,
    {
        if state.bit_boards[j] == 0 {
            hv.push(descriptor_exec(state, j));
        }
        j = j + 1;
    }
    let sorted = sorted_u128s(&hv);
    proof {
        broadcast use vstd::seq_lib::group_to_multiset_ensures;

        let leq = u128_leq();
        assert(vstd::relations::total_ordering(leq));
        hv@.lemma_sort_by_ensures(leq);
        vstd::seq_lib::lemma_sorted_unique(sorted@, hv@.sort_by(leq), leq);
        assert(sorted@ == hand_descs(state@, 8).sort_by(u128_leq()));
        assert(sorted@.len() == sorted@.to_multiset().len());
        assert(hv@.len() == hv@.to_multiset().len());
    }
    let mut b: u128 = 0;
    let mut k: usize = 0;
    while k < sorted.len()
        invariant
            k <= sorted@.len(),
            sorted@.len() <= 8,
            b == pack_acc(sorted@, k as int),
        decreases sorted@.len() - k,
    {
        b = b | (sorted[k] << (7 * k) as u32);
        k = k + 1;
    }
    acc | (b << 84)
}

/// Computes the mirror-canonical 128-bit key of a state.
pub fn canonical_key(state: &State) -> (r: u128)
    ensures
        r == canonical_key_spec(state@),
{
    let a = convert_state_to_u128(state);
    let mirrored = turn_left_right(state);
    let b = convert_state_to_u128(&mirrored);
    if a <= b {
        a
    } else {
        b
    }
}

} // verus!
