//! Pseudo-legal attack generation: destination bitboards for a single
//! leaper (knight) or slider (bishop, rook, queen), ignoring whether the
//! move would leave the mover's own king in check.

use vstd::prelude::*;
use crate::bits::{bit, sq_bb, single_bit};

verus! {

/// Rank (row) of square `s`.
pub open spec fn rank_of(s: u64) -> int {
    s as int / 8
}

/// File (column) of square `s`.
pub open spec fn file_of(s: u64) -> int {
    s as int % 8
}

/// Absolute difference.
pub open spec fn dist(a: int, b: int) -> int {
    if a >= b {
        a - b
    } else {
        b - a
    }
}

pub open spec fn in_board(r: int, f: int) -> bool {
    0 <= r < 8 && 0 <= f < 8
}

/// A knight on `s` reaches `t`: one rank and two files away, or two ranks
/// and one file away; offsets that would wrap around an edge never satisfy
/// this because ranks and files are compared arithmetically.
pub open spec fn knight_reaches(s: u64, t: u64) -> bool {
    s < 64 && t < 64 && {
        let dr = dist(rank_of(s), rank_of(t));
        let df = dist(file_of(s), file_of(t));
        (dr == 1 && df == 2) || (dr == 2 && df == 1)
    }
}

/// Knight destinations among the squares below `n`, own-occupied squares
/// removed.
pub open spec fn knight_bb_below(s: u64, own: u64, n: int) -> u64
    decreases n,
{
    if n <= 0 {
        0u64
    } else {
        let rest = knight_bb_below(s, own, n - 1);
        let t = (n - 1) as u64;
        if knight_reaches(s, t) && !bit(own, t) {
            rest | sq_bb(t)
        } else {
            rest
        }
    }
}

/// The full knight destination bitboard from square `s`.
pub open spec fn knight_moves(s: u64, own: u64) -> u64 {
    knight_bb_below(s, own, 64)
}

/// Squares reached by stepping from `(r, f)` one `(dr, df)` step at a time:
/// each empty square is included, the first occupied square is included and
/// stops the ray, and a step leaving the board stops it.
pub open spec fn ray_bb(occ: u64, r: int, f: int, dr: int, df: int, fuel: nat) -> u64
    decreases fuel,
{
    if fuel == 0 {
        0u64
    } else {
        let nr = r + dr;
        let nf = f + df;
        if !in_board(nr, nf) {
            0u64
        } else {
            let t = (nr * 8 + nf) as u64;
            if bit(occ, t) {
                sq_bb(t)
            } else {
                sq_bb(t) | ray_bb(occ, nr, nf, dr, df, (fuel - 1) as nat)
            }
        }
    }
}

/// Bishop destinations from `s`: the four diagonal rays, own-occupied
/// squares removed.
pub open spec fn bishop_moves(occ: u64, s: u64, own: u64) -> u64 {
    (ray_bb(occ, rank_of(s), file_of(s), 1, 1, 8) | ray_bb(occ, rank_of(s), file_of(s), 1, -1, 8)
        | ray_bb(occ, rank_of(s), file_of(s), -1, 1, 8) | ray_bb(
        occ,
        rank_of(s),
        file_of(s),
        -1,
        -1,
        8,
    )) & !own
}

/// Rook destinations from `s`: the four orthogonal rays, own-occupied
/// squares removed.
pub open spec fn rook_moves(occ: u64, s: u64, own: u64) -> u64 {
    (ray_bb(occ, rank_of(s), file_of(s), 1, 0, 8) | ray_bb(occ, rank_of(s), file_of(s), -1, 0, 8)
        | ray_bb(occ, rank_of(s), file_of(s), 0, 1, 8) | ray_bb(
        occ,
        rank_of(s),
        file_of(s),
        0,
        -1,
        8,
    )) & !own
}

/// Queen destinations: the union of the bishop-direction and
/// rook-direction rays from the same origin.
pub open spec fn queen_moves(occ: u64, s: u64, own: u64) -> u64 {
    bishop_moves(occ, s, own) | rook_moves(occ, s, own)
}

proof fn lemma_or_zero(x: u64)
    ensures
        x | 0u64 == x,
{
    assert(x | 0u64 == x) by (bit_vector);
}

proof fn lemma_or_assoc(a: u64, b: u64, c: u64)
    ensures
        (a | b) | c == a | (b | c),
{
    assert((a | b) | c == a | (b | c)) by (bit_vector);
}

/// The index of the single set bit of `bb`.
fn find_sq(bb: u64) -> (s: u64)
    requires
        single_bit(bb),
    ensures
        s < 64 && bb == sq_bb(s),
{
    let ghost s0: u64 = choose|s: u64| s < 64 && bb == sq_bb(s);
    let mut i: u64 = 0;
    while bb != (1u64 << i)
        invariant
            i <= s0,
            s0 < 64,
            bb == sq_bb(s0),
        decreases s0 - i,
    {
        i = i + 1;
    }
    i
}

/// Knight destinations from square `s`, own-occupied squares removed.
pub fn knight_moves_from(s: u64, own: u64) -> (m: u64)
    requires
        s < 64,
    ensures
        m == knight_moves(s, own),
{
    let mut acc: u64 = 0;
    let mut t: u64 = 0;
    let sr = s / 8;
    let sf = s % 8;
    while t < 64
        invariant
            t <= 64,
            s < 64,
            sr == s / 8,
            sf == s % 8,
            acc == knight_bb_below(s, own, t as int),
        decreases 64 - t,
    {
        let tr = t / 8;
        let tf = t % 8;
        let dr = if sr >= tr {
            sr - tr
        } else {
            tr - sr
        };
        let df = if sf >= tf {
            sf - tf
        } else {
            tf - sf
        };
        if ((dr == 1 && df == 2) || (dr == 2 && df == 1)) && (own & (1u64 << t) == 0) {
            assert(knight_reaches(s, t) && !bit(own, t));
            acc = acc | (1u64 << t);
        } else {
            assert(!(knight_reaches(s, t) && !bit(own, t)));
        }
        t = t + 1;
    }
    acc
}

/// The squares of one ray from square `s` in direction `(dr, df)`.
fn ray_moves_from(s: u64, dr: i64, df: i64, occ: u64) -> (m: u64)
    requires
        s < 64,
        -1 <= dr <= 1,
        -1 <= df <= 1,
    ensures
        m == ray_bb(occ, rank_of(s), file_of(s), dr as int, df as int, 8),
{
    let mut acc: u64 = 0;
    let mut cr: i64 = (s / 8) as i64;
    let mut cf: i64 = (s % 8) as i64;
    let mut fuel: u64 = 8;
    proof {
        let full = ray_bb(occ, rank_of(s), file_of(s), dr as int, df as int, 8);
        assert(0u64 | full == full) by (bit_vector);
    }
    while fuel > 0
        invariant
            -1 <= dr <= 1,
            -1 <= df <= 1,
            0 <= cr < 8,
            0 <= cf < 8,
            fuel <= 8,
            ray_bb(occ, rank_of(s), file_of(s), dr as int, df as int, 8) == acc | ray_bb(
                occ,
                cr as int,
                cf as int,
                dr as int,
                df as int,
                fuel as nat,
            ),
        decreases fuel,
    {
        let nr = cr + dr;
        let nf = cf + df;
        if nr < 0 || nr > 7 || nf < 0 || nf > 7 {
            proof {
                lemma_or_zero(acc);
            }
            return acc;
        }
        let t = (nr * 8 + nf) as u64;
        if occ & (1u64 << t) != 0 {
            assert(bit(occ, t));
            return acc | (1u64 << t);
        }
        assert(!bit(occ, t));
        proof {
            lemma_or_assoc(
                acc,
                sq_bb(t),
                ray_bb(occ, nr as int, nf as int, dr as int, df as int, (fuel - 1) as nat),
            );
        }
        acc = acc | (1u64 << t);
        cr = nr;
        cf = nf;
        fuel = fuel - 1;
    }
    proof {
        lemma_or_zero(acc);
    }
    acc
}

/// Bishop destinations from square `s` given total occupancy `occ`,
/// own-occupied squares removed.
pub fn bishop_moves_from(s: u64, own: u64, occ: u64) -> (m: u64)
    requires
        s < 64,
    ensures
        m == bishop_moves(occ, s, own),
{
    (ray_moves_from(s, 1, 1, occ) | ray_moves_from(s, 1, -1, occ) | ray_moves_from(s, -1, 1, occ)
        | ray_moves_from(s, -1, -1, occ)) & !own
}

/// Rook destinations from square `s` given total occupancy `occ`,
/// own-occupied squares removed.
pub fn rook_moves_from(s: u64, own: u64, occ: u64) -> (m: u64)
    requires
        s < 64,
    ensures
        m == rook_moves(occ, s, own),
{
    (ray_moves_from(s, 1, 0, occ) | ray_moves_from(s, -1, 0, occ) | ray_moves_from(s, 0, 1, occ)
        | ray_moves_from(s, 0, -1, occ)) & !own
}

/// Knight destinations for the single piece on the bitboard `bb`.
pub fn solo_knight_moves(bb: u64, allies: u64) -> (m: u64)
    requires
        single_bit(bb),
    ensures
        forall|s: u64| s < 64 && bb == sq_bb(s) ==> m == knight_moves(s, allies),
{
    let s = find_sq(bb);
    proof {
        assert forall|s2: u64| s2 < 64 && bb == sq_bb(s2) implies s2 == s by {
            assert(1u64 << s2 == 1u64 << s && s2 < 64 && s < 64 ==> s2 == s) by (bit_vector);
        }
    }
    knight_moves_from(s, allies)
}

/// Bishop destinations for the single piece on the bitboard `bb`.
pub fn solo_bishop_moves(bb: u64, allies: u64, occ: u64) -> (m: u64)
    requires
        single_bit(bb),
    ensures
        forall|s: u64| s < 64 && bb == sq_bb(s) ==> m == bishop_moves(occ, s, allies),
{
    let s = find_sq(bb);
    proof {
        assert forall|s2: u64| s2 < 64 && bb == sq_bb(s2) implies s2 == s by {
            assert(1u64 << s2 == 1u64 << s && s2 < 64 && s < 64 ==> s2 == s) by (bit_vector);
        }
    }
    bishop_moves_from(s, allies, occ)
}

/// Rook destinations for the single piece on the bitboard `bb`.
pub fn solo_rook_moves(bb: u64, allies: u64, occ: u64) -> (m: u64)
    requires
        single_bit(bb),
    ensures
        forall|s: u64| s < 64 && bb == sq_bb(s) ==> m == rook_moves(occ, s, allies),
{
    let s = find_sq(bb);
    proof {
        assert forall|s2: u64| s2 < 64 && bb == sq_bb(s2) implies s2 == s by {
            assert(1u64 << s2 == 1u64 << s && s2 < 64 && s < 64 ==> s2 == s) by (bit_vector);
        }
    }
    rook_moves_from(s, allies, occ)
}

/// Queen destinations for the single piece on the bitboard `bb`.
pub fn solo_queen_moves(bb: u64, allies: u64, occ: u64) -> (m: u64)
    requires
        single_bit(bb),
    ensures
        forall|s: u64| s < 64 && bb == sq_bb(s) ==> m == queen_moves(occ, s, allies),
{
    let s = find_sq(bb);
    proof {
        assert forall|s2: u64| s2 < 64 && bb == sq_bb(s2) implies s2 == s by {
            assert(1u64 << s2 == 1u64 << s && s2 < 64 && s < 64 ==> s2 == s) by (bit_vector);
        }
    }
    bishop_moves_from(s, allies, occ) | rook_moves_from(s, allies, occ)
}

} // verus!
