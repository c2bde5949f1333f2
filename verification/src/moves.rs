//! The move table: for each piece kind and each square, the 12-bit mask of
//! squares reachable in one move, defined through the four directional
//! shifts of the 3x4 board, and the observation-narrowing of a kind mask.
use vstd::prelude::*;

use crate::bits::bit8;
use crate::bits::bit16;

verus! {

/// One step toward the far row.
pub open spec fn shift_n(b: u16) -> u16 {
    (b & 0x1ff) << 3
}

/// One step toward the home row.
pub open spec fn shift_s(b: u16) -> u16 {
    (b & 0xff8) >> 3
}

/// One step toward the higher column.
pub open spec fn shift_e(b: u16) -> u16 {
    (b & 0x6db) << 1
}

/// One step toward the lower column.
pub open spec fn shift_w(b: u16) -> u16 {
    (b & 0xdb6) >> 1
}

/// The squares a piece of kind `kind` reaches in one move from square `sq`:
/// kind 0 is the chick, 1 the giraffe, 2 the elephant, 3 the lion and 4 the
/// hen. Any other kind reaches nothing.
pub open spec fn nexts(kind: int, sq: int) -> u16 {
    let b = (1u16 << sq);
    if kind == 0 {
        shift_n(b)
    } else if kind == 1 {
        shift_n(b) | shift_s(b) | shift_e(b) | shift_w(b)
    } else if kind == 2 {
        shift_n(shift_e(b)) | shift_n(shift_w(b)) | shift_s(shift_e(b)) | shift_s(shift_w(b))
    } else if kind == 3 {
        shift_n(b) | shift_s(b) | shift_e(b) | shift_w(b) | shift_n(shift_e(b)) | shift_n(
            shift_w(b),
        ) | shift_s(shift_e(b)) | shift_s(shift_w(b))
    } else if kind == 4 {
        shift_n(b) | shift_s(b) | shift_e(b) | shift_w(b) | shift_n(shift_e(b)) | shift_n(
            shift_w(b),
        )
    } else {
        0
    }
}

/// Every combination of directional shifts used by the move table lies
/// within the low 12 bits, whatever the starting mask.
proof fn lemma_moves_low12(b: u16)
    by (bit_vector)
    ensures
        shift_n(b) & 0xf000 == 0,
        (shift_n(b) | shift_s(b) | shift_e(b) | shift_w(b)) & 0xf000 == 0,
        (shift_n(shift_e(b)) | shift_n(shift_w(b)) | shift_s(shift_e(b)) | shift_s(shift_w(b)))
            & 0xf000 == 0,
        (shift_n(b) | shift_s(b) | shift_e(b) | shift_w(b) | shift_n(shift_e(b)) | shift_n(
            shift_w(b),
        ) | shift_s(shift_e(b)) | shift_s(shift_w(b))) & 0xf000 == 0,
        (shift_n(b) | shift_s(b) | shift_e(b) | shift_w(b) | shift_n(shift_e(b)) | shift_n(
            shift_w(b),
        )) & 0xf000 == 0,
        0u16 & 0xf000 == 0,
{
}

/// Every move-table entry lies within the low 12 bits.
pub proof fn lemma_nexts_low12(kind: int, sq: int)
    ensures
        nexts(kind, sq) & 0xf000 == 0,
{
    lemma_moves_low12(1u16 << sq);
}

/// Computes the move-table entry for kind `kind` and square `sq`.
pub fn nexts_exec(kind: u8, sq: u8) -> (r: u16)
    requires
        sq < 16,
    ensures
        r == nexts(kind as int, sq as int),
{
    let b: u16 = 1u16 << sq;
    let n: u16 = (b & 0x1ff) << 3;
    let s: u16 = (b & 0xff8) >> 3;
    let e: u16 = (b & 0x6db) << 1;
    let w: u16 = (b & 0xdb6) >> 1;
    let ne: u16 = (e & 0x1ff) << 3;
    let nw: u16 = (w & 0x1ff) << 3;
    let se: u16 = (e & 0xff8) >> 3;
    let sw: u16 = (w & 0xff8) >> 3;
    if kind == 0 {
        n
    } else if kind == 1 {
        n | s | e | w
    } else if kind == 2 {
        ne | nw | se | sw
    } else if kind == 3 {
        n | s | e | w | ne | nw | se | sw
    } else if kind == 4 {
        n | s | e | w | ne | nw
    } else {
        0
    }
}

/// Narrows a kind-possibility mask after a move from `from` to `to`: only
/// the kinds whose move table allows that step remain possible.
pub open spec fn narrow(p: u8, from: int, to: int) -> u8 {
    (if bit8(p, 0) && bit16(nexts(0, from), to) {
        1u8
    } else {
        0u8
    }) | (if bit8(p, 1) && bit16(nexts(1, from), to) {
        2u8
    } else {
        0u8
    }) | (if bit8(p, 2) && bit16(nexts(2, from), to) {
        4u8
    } else {
        0u8
    }) | (if bit8(p, 3) && bit16(nexts(3, from), to) {
        8u8
    } else {
        0u8
    }) | (if bit8(p, 4) && bit16(nexts(4, from), to) {
        16u8
    } else {
        0u8
    })
}

/// Computes the narrowed kind mask of a piece observed moving `from` -> `to`.
pub fn narrow_exec(p: u8, from: u8, to: u8) -> (r: u8)
    requires
        from < 16,
        to < 16,
    ensures
        r == narrow(p, from as int, to as int),
{
    let t0: u8 = if (p >> 0u8) & 1 != 0 && (nexts_exec(0, from) >> to) & 1 != 0 {
        1
    } else {
        0
    };
    let t1: u8 = if (p >> 1u8) & 1 != 0 && (nexts_exec(1, from) >> to) & 1 != 0 {
        2
    } else {
        0
    };
    let t2: u8 = if (p >> 2u8) & 1 != 0 && (nexts_exec(2, from) >> to) & 1 != 0 {
        4
    } else {
        0
    };
    let t3: u8 = if (p >> 3u8) & 1 != 0 && (nexts_exec(3, from) >> to) & 1 != 0 {
        8
    } else {
        0
    };
    let t4: u8 = if (p >> 4u8) & 1 != 0 && (nexts_exec(4, from) >> to) & 1 != 0 {
        16
    } else {
        0
    };
    t0 | t1 | t2 | t3 | t4
}

} // verus!
