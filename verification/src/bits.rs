//! Bit-level model of a 64-square board: square indexing, single-bit tests,
//! population count, and the vertical (rank-reversing) reflection.

use vstd::prelude::*;

verus! {

/// True when bit `i` of `x` is set; square `i` is rank `i / 8`, file `i % 8`.
pub open spec fn bit(x: u64, i: u64) -> bool {
    x & (1u64 << i) != 0
}

/// The bitboard holding exactly square `i`.
pub open spec fn sq_bb(i: u64) -> u64 {
    1u64 << i
}

/// A bitboard holding exactly one square.
pub open spec fn single_bit(bb: u64) -> bool {
    exists|s: u64| s < 64 && bb == sq_bb(s)
}

/// Setting square `j` leaves every other square alone.
pub proof fn lemma_bit_or(x: u64, j: u64, i: u64)
    requires
        i < 64,
        j < 64,
    ensures
        bit(x | sq_bb(j), i) == (bit(x, i) || i == j),
{
    assert((x | (1u64 << j)) & (1u64 << i) != 0 <==> (x & (1u64 << i) != 0 || i == j))
        by (bit_vector)
        requires
            i < 64,
            j < 64,
    ;
}

/// Clearing square `j` leaves every other square alone.
pub proof fn lemma_bit_clear(x: u64, j: u64, i: u64)
    requires
        i < 64,
        j < 64,
    ensures
        bit(x & !sq_bb(j), i) == (bit(x, i) && i != j),
{
    assert((x & !(1u64 << j)) & (1u64 << i) != 0 <==> (x & (1u64 << i) != 0 && i != j))
        by (bit_vector)
        requires
            i < 64,
            j < 64,
    ;
}

/// Two boards with no bit in common have an empty intersection.
pub proof fn lemma_no_common_bits(x: u64, y: u64)
    requires
        forall|i: u64| i < 64 ==> !(bit(x, i) && bit(y, i)),
    ensures
        x & y == 0,
{
    let z = x & y;
    assert forall|i: u64| i < 64 implies !bit(z, i) by {
        assert((x & y) & (1u64 << i) != 0 <==> (x & (1u64 << i) != 0 && y & (1u64 << i) != 0))
            by (bit_vector);
        assert(!(bit(x, i) && bit(y, i)));
    }
    lemma_zero_bits(z);
}

/// A board with no bit set is zero.
pub proof fn lemma_zero_bits(z: u64)
    requires
        forall|i: u64| i < 64 ==> !bit(z, i),
    ensures
        z == 0,
{
    lemma_zero_low(z, 63);
    assert(!bit(z, 63));
    assert((z & (((1u64 << 63u64) - 1) as u64) == 0 && z & (1u64 << 63u64) == 0) ==> z == 0)
        by (bit_vector);
}

proof fn lemma_zero_low(z: u64, n: u64)
    requires
        n <= 63,
        forall|i: u64| i < n ==> !bit(z, i),
    ensures
        z & (((1u64 << n) - 1) as u64) == 0,
    decreases n,
{
    if n == 0 {
        assert(z & (((1u64 << 0u64) - 1) as u64) == 0) by (bit_vector);
    } else {
        let m = (n - 1) as u64;
        lemma_zero_low(z, m);
        assert(!bit(z, m));
        assert((z & (((1u64 << m) - 1) as u64) == 0 && z & (1u64 << m) == 0 && m < 63 && n == m + 1)
            ==> z & (((1u64 << n) - 1) as u64) == 0) by (bit_vector);
    }
}

/// The empty board holds no square.
pub proof fn lemma_bit_zero(i: u64)
    ensures
        !bit(0u64, i),
{
    assert(0u64 & (1u64 << i) == 0) by (bit_vector);
}

/// Adding a square absent from `y` keeps `x` and `y` disjoint.
pub proof fn lemma_or_single_disjoint(x: u64, y: u64, j: u64)
    requires
        j < 64,
        x & y == 0,
        y & (1u64 << j) == 0,
    ensures
        (x | (1u64 << j)) & y == 0,
        y & (x | (1u64 << j)) == 0,
{
    assert((x & y == 0 && y & (1u64 << j) == 0) ==> ((x | (1u64 << j)) & y == 0 && y & (x | (1u64
        << j)) == 0)) by (bit_vector);
}

/// Boards that agree on every square are equal.
pub proof fn lemma_bits_eq(x: u64, y: u64)
    requires
        forall|i: u64| i < 64 ==> bit(x, i) == bit(y, i),
    ensures
        x == y,
{
    let z = x ^ y;
    assert forall|i: u64| i < 64 implies !bit(z, i) by {
        assert((x ^ y) & (1u64 << i) != 0 <==> ((x & (1u64 << i) != 0) != (y & (1u64 << i) != 0)))
            by (bit_vector);
        assert(bit(x, i) == bit(y, i));
    }
    lemma_zero_bits(z);
    assert(x ^ y == 0 ==> x == y) by (bit_vector);
}

/// Disjoint boards share no square.
pub proof fn lemma_disjoint_bit(x: u64, y: u64, i: u64)
    requires
        x & y == 0,
        i < 64,
    ensures
        !(bit(x, i) && bit(y, i)),
{
    assert(x & y == 0 ==> !(x & (1u64 << i) != 0 && y & (1u64 << i) != 0)) by (bit_vector);
}

/// Number of set bits among the low `n` bits of `x`.
pub open spec fn pop_bits(x: u64, n: int) -> nat
    decreases n,
{
    if n <= 0 {
        0
    } else {
        pop_bits(x, n - 1) + if bit(x, (n - 1) as u64) {
            1nat
        } else {
            0nat
        }
    }
}

/// Number of set bits of `x`.
pub open spec fn pop64(x: u64) -> nat {
    pop_bits(x, 64)
}

pub proof fn lemma_pop_bits_le(x: u64, n: int)
    requires
        0 <= n,
    ensures
        pop_bits(x, n) <= n,
    decreases n,
{
    if n > 0 {
        lemma_pop_bits_le(x, n - 1);
    }
}

/// Counts the set bits of `x`.
pub fn popcnt(x: u64) -> (c: u32)
    ensures
        c == pop64(x),
        c <= 64,
{
    let mut c: u32 = 0;
    let mut i: u64 = 0;
    while i < 64
        invariant
            i <= 64,
            c == pop_bits(x, i as int),
            c <= i,
        decreases 64 - i,
    {
        if x & (1u64 << i) != 0 {
            c = c + 1;
        }
        i = i + 1;
    }
    c
}

/// The board reflected top-to-bottom: rank `r` becomes rank `7 - r`,
/// files are unchanged; square `i` maps to `i ^ 56`.
pub open spec fn vflip(x: u64) -> u64 {
    ((x & 0x0000_0000_0000_00ff) << 56) | ((x & 0x0000_0000_0000_ff00) << 40) | ((x
        & 0x0000_0000_00ff_0000) << 24) | ((x & 0x0000_0000_ff00_0000) << 8) | ((x
        & 0x0000_00ff_0000_0000) >> 8) | ((x & 0x0000_ff00_0000_0000) >> 24) | ((x
        & 0x00ff_0000_0000_0000) >> 40) | ((x & 0xff00_0000_0000_0000) >> 56)
}

/// Reflecting twice restores the board.
pub proof fn lemma_vflip_involutive(x: u64)
    ensures
        vflip(vflip(x)) == x,
{
    assert(vflip(vflip(x)) == x) by (bit_vector);
}

/// Reflection distributes over union.
pub proof fn lemma_vflip_or(a: u64, b: u64)
    ensures
        vflip(a | b) == vflip(a) | vflip(b),
{
    assert(vflip(a | b) == vflip(a) | vflip(b)) by (bit_vector);
}

/// Reflects the board top-to-bottom.
pub fn vflip_exec(x: u64) -> (r: u64)
    ensures
        r == vflip(x),
{
    ((x & 0x0000_0000_0000_00ff) << 56) | ((x & 0x0000_0000_0000_ff00) << 40) | ((x
        & 0x0000_0000_00ff_0000) << 24) | ((x & 0x0000_0000_ff00_0000) << 8) | ((x
        & 0x0000_00ff_0000_0000) >> 8) | ((x & 0x0000_ff00_0000_0000) >> 24) | ((x
        & 0x00ff_0000_0000_0000) >> 40) | ((x & 0xff00_0000_0000_0000) >> 56)
}

} // verus!
