//! Bit-level utilities: population counts, set-bit enumeration, the
//! left-right board mirror and the 180-degree board reversal, together with
//! the bit-vector lemmas the rest of the crate needs.
use vstd::prelude::*;

verus! {

/// Number of set bits among the low 4 bits.
pub open spec fn pop4(m: u8) -> int {
    ((m >> 0) & 1) + ((m >> 1) & 1) + ((m >> 2) & 1) + ((m >> 3) & 1)
}

/// Number of set bits of an 8-bit value.
pub open spec fn pop8(m: u8) -> int {
    ((m >> 0) & 1) + ((m >> 1) & 1) + ((m >> 2) & 1) + ((m >> 3) & 1) + ((m >> 4) & 1) + ((m >> 5)
        & 1) + ((m >> 6) & 1) + ((m >> 7) & 1)
}

/// Number of set bits of a 16-bit value.
pub open spec fn pop16(b: u16) -> int {
    ((b >> 0) & 1) + ((b >> 1) & 1) + ((b >> 2) & 1) + ((b >> 3) & 1) + ((b >> 4) & 1) + ((b >> 5)
        & 1) + ((b >> 6) & 1) + ((b >> 7) & 1) + ((b >> 8) & 1) + ((b >> 9) & 1) + ((b >> 10) & 1)
        + ((b >> 11) & 1) + ((b >> 12) & 1) + ((b >> 13) & 1) + ((b >> 14) & 1) + ((b >> 15) & 1)
}

/// True when bit `q` of `b` is set.
pub open spec fn bit16(b: u16, q: int) -> bool {
    (b >> q) & 1 != 0
}

/// True when bit `q` of `m` is set.
pub open spec fn bit8(m: u8, q: int) -> bool {
    (m >> q) & 1 != 0
}

/// The positions below `n` of the set bits of `b`, in ascending order.
pub open spec fn bit_positions_below(b: u16, n: int) -> Seq<u8>
    decreases n,
{
    if n <= 0 {
        Seq::empty()
    } else if bit16(b, n - 1) {
        bit_positions_below(b, n - 1).push((n - 1) as u8)
    } else {
        bit_positions_below(b, n - 1)
    }
}

/// The positions of the set bits of `b`, in ascending order.
pub open spec fn bit_positions(b: u16) -> Seq<u8> {
    bit_positions_below(b, 16)
}

/// Membership in `bit_positions_below` is exactly "the bit is set".
pub proof fn lemma_bit_positions_below_contains(b: u16, n: int, t: u8)
    requires
        0 <= n <= 16,
    ensures
        bit_positions_below(b, n).contains(t) <==> (t < n && bit16(b, t as int)),
    decreases n,
{
    if n > 0 {
        lemma_bit_positions_below_contains(b, n - 1, t);
        if bit16(b, n - 1) {
            let s = bit_positions_below(b, n - 1);
            let sp = s.push((n - 1) as u8);
            assert(sp[s.len() as int] == (n - 1) as u8);
            if sp.contains(t) {
                let j = choose|j: int| 0 <= j < sp.len() && sp[j] == t;
                if j < s.len() {
                    assert(s[j] == t);
                }
            }
            if s.contains(t) {
                let j = choose|j: int| 0 <= j < s.len() && s[j] == t;
                assert(sp[j] == t);
            }
        }
    }
}

/// Membership in `bit_positions` is exactly "the bit is set".
pub proof fn lemma_bit_positions_contains(b: u16, t: u8)
    ensures
        bit_positions(b).contains(t) <==> bit16(b, t as int),
{
    lemma_bit_positions_below_contains(b, 16, t);
    if bit16(b, t as int) {
        assert(t < 16) by (bit_vector)
            requires
                (b >> t) & 1 != 0,
        ;
    }
}

/// Collects the positions of the set bits of `b`, lowest first.
pub fn bit_positions_exec(b: u16) -> (r: Vec<u8>)
    ensures
        r@ == bit_positions(b),
{
    let mut r: Vec<u8> = Vec::new();
    let mut q: u16 = 0;
    while q < 16
        invariant
            q <= 16,
            r@ == bit_positions_below(b, q as int),
        decreases 16 - q,
    {
        if (b >> q) & 1 != 0 {
            r.push(q as u8);
        }
        q = q + 1;
    }
    r
}

/// The position of the lowest set bit of `b` at or above `q`; 16 when none.
pub open spec fn lowest_bit_from(b: u16, q: int) -> int
    decreases 16 - q,
{
    if q < 0 || q >= 16 {
        16
    } else if bit16(b, q) {
        q
    } else {
        lowest_bit_from(b, q + 1)
    }
}

/// The position of the lowest set bit of `b`; 16 when `b == 0`.
pub open spec fn lowest_bit(b: u16) -> int {
    lowest_bit_from(b, 0)
}

fn lowest_bit_from_exec(b: u16, q: u16) -> (r: u16)
    requires
        q <= 16,
    ensures
        r == lowest_bit_from(b, q as int),
    decreases 16 - q,
{
    if q >= 16 {
        16
    } else if (b >> q) & 1 != 0 {
        q
    } else {
        lowest_bit_from_exec(b, q + 1)
    }
}

/// Finds the position of the lowest set bit of `b`; 16 when `b == 0`.
pub fn lowest_bit_exec(b: u16) -> (r: u16)
    ensures
        r == lowest_bit(b),
{
    lowest_bit_from_exec(b, 0)
}

/// Below the lowest set bit every bit is clear; at it, when within range,
/// the bit is set.
pub proof fn lemma_lowest_bit_from(b: u16, q: int)
    requires
        0 <= q <= 16,
    ensures
        forall|p: int| q <= p < lowest_bit_from(b, q) ==> !bit16(b, p),
        lowest_bit_from(b, q) < 16 ==> bit16(b, lowest_bit_from(b, q)),
        q <= lowest_bit_from(b, q) <= 16,
    decreases 16 - q,
{
    if q < 16 && !bit16(b, q) {
        lemma_lowest_bit_from(b, q + 1);
    }
}

/// Mirrors a 12-bit board mask left-to-right: within each of the four rows,
/// column 0 swaps with column 2. Bits above the low 12 pass through.
pub open spec fn mirror12(b: u16) -> u16 {
    ((b & 0x249) << 2) | (b & 0x492) | ((b & 0x924) >> 2) | (b & 0xf000)
}

/// Computes the left-to-right mirror of a 12-bit board mask.
pub fn mirror12_exec(b: u16) -> (r: u16)
    ensures
        r == mirror12(b),
{
    ((b & 0x249) << 2) | (b & 0x492) | ((b & 0x924) >> 2) | (b & 0xf000)
}

/// Reverses the low 12 bits of `b` (the 180-degree board rotation) and
/// clears everything above them.
pub open spec fn reverse12(b: u16) -> u16 {
    (((b >> 0) & 1) << 11) | (((b >> 1) & 1) << 10) | (((b >> 2) & 1) << 9) | (((b >> 3) & 1) << 8)
        | (((b >> 4) & 1) << 7) | (((b >> 5) & 1) << 6) | (((b >> 6) & 1) << 5) | (((b >> 7) & 1)
        << 4) | (((b >> 8) & 1) << 3) | (((b >> 9) & 1) << 2) | (((b >> 10) & 1) << 1) | (((b >> 11)
        & 1) << 0)
}

/// Computes the 180-degree rotation of a 12-bit board mask.
pub fn reverse12_exec(b: u16) -> (r: u16)
    ensures
        r == reverse12(b),
{
    (((b >> 0) & 1) << 11) | (((b >> 1) & 1) << 10) | (((b >> 2) & 1) << 9) | (((b >> 3) & 1) << 8)
        | (((b >> 4) & 1) << 7) | (((b >> 5) & 1) << 6) | (((b >> 6) & 1) << 5) | (((b >> 7) & 1)
        << 4) | (((b >> 8) & 1) << 3) | (((b >> 9) & 1) << 2) | (((b >> 10) & 1) << 1) | (((b >> 11)
        & 1) << 0)
}

/// Mirroring twice is the identity.
pub proof fn lemma_mirror12_involution(b: u16)
    by (bit_vector)
    ensures
        mirror12(mirror12(b)) == b,
{
}

/// The 180-degree rotation keeps the number of low-12 set bits and preserves
/// disjointness; its result stays within the low 12 bits.
pub proof fn lemma_reverse12_shape(x: u16, y: u16)
    by (bit_vector)
    ensures
        pop16(reverse12(x)) == pop16(x & 0xfff),
        x & 0xf000 == 0 ==> pop16(reverse12(x)) == pop16(x),
        x & y == 0 ==> reverse12(x) & reverse12(y) == 0,
        reverse12(x) & 0xf000 == 0,
{
}

/// A single low-12 bit is a one-bit low-12 mask; zero has no bits.
pub proof fn lemma_single_bit_pop(q: u16)
    by (bit_vector)
    ensures
        q < 12 ==> pop16(1u16 << q) == 1 && (1u16 << q) & 0xf000 == 0,
        pop16(0u16) == 0,
{
}

} // verus!
