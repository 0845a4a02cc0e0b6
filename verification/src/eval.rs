//! Static evaluation: material, quadratic pawn-advancement bonus, and
//! mobility, scored from the first color's perspective, plus the
//! fifty-move-rule draw check.
//!
//! All scores are integers in forty-eighths of a centipawn, so the pawn
//! curve and the mobility weights stay exact. The second color's terms are
//! computed on its boards reflected into the first color's frame; piece
//! movement is symmetric under that reflection, so each term equals the
//! second color's own count and the evaluation is mirror-antisymmetric by
//! construction.

use vstd::prelude::*;
use crate::bits::{bit, pop64, popcnt, vflip, vflip_exec, lemma_pop_bits_le, lemma_vflip_involutive,
    lemma_vflip_or};
use crate::board::{Board, mirror_spec};
use crate::move_gen::{
    knight_moves, bishop_moves, rook_moves, knight_moves_from, bishop_moves_from, rook_moves_from,
};

verus! {

/// A terminal game outcome. The evaluator reports only the inactivity draw;
/// checkmate and stalemate require legal-move enumeration and are reported
/// by a search layer through this same type.
#[derive(Clone, Copy, Debug, PartialEq, Eq, Structural)]
pub enum Ending {
    Draw,
    Checkmate,
    Stalemate,
}

/// Plies without a capture or pawn move after which the game is drawn.
pub const DRAW_CLOCK: u32 = 50;

/// Material values, in forty-eighths of a centipawn (pawn = 100 cp). The
/// bishop deliberately shares the knight's value.
pub const P_VAL: u64 = 4800;

pub const N_VAL: u64 = 14400;

pub const B_VAL: u64 = 14400;

pub const R_VAL: u64 = 24000;

pub const Q_VAL: u64 = 43200;

/// Mobility weights per pseudo-legal destination, in forty-eighths of a
/// centipawn (10 cp for knight, bishop and rook, 4 cp for the queen).
pub const N_MOB: u64 = 480;

pub const B_MOB: u64 = 480;

pub const R_MOB: u64 = 480;

pub const Q_MOB: u64 = 192;

/// The terminal state the evaluator can detect: the fifty-move draw.
pub open spec fn ending_of(b: Board) -> Option<Ending> {
    if b.halfmove_clock >= DRAW_CLOCK {
        Some(Ending::Draw)
    } else {
        None
    }
}

/// Material total of one side's boards.
pub open spec fn material(p: u64, n: u64, bsh: u64, r: u64, q: u64) -> int {
    P_VAL * pop64(p) + N_VAL * pop64(n) + B_VAL * pop64(bsh) + R_VAL * pop64(r) + Q_VAL * pop64(q)
}

/// Pawn-advancement bonus at rank `r`: zero at the back rank, growing
/// quadratically to its maximum at the promotion rank.
pub open spec fn pawn_bonus(r: int) -> int {
    100 * r * r
}

/// Summed pawn bonus over the squares below `n`.
pub open spec fn pawn_total(p: u64, n: int) -> int
    decreases n,
{
    if n <= 0 {
        0
    } else {
        pawn_total(p, n - 1) + if bit(p, (n - 1) as u64) {
            pawn_bonus((n - 1) / 8)
        } else {
            0
        }
    }
}

/// Summed, weighted pseudo-legal destination counts of the knights, bishops,
/// rooks and queens on the squares below `n`; a queen counts its
/// bishop-direction and rook-direction rays.
pub open spec fn mobility_total(
    nbb: u64,
    bbb: u64,
    rbb: u64,
    qbb: u64,
    allies: u64,
    occ: u64,
    n: int,
) -> int
    decreases n,
{
    if n <= 0 {
        0
    } else {
        let s = (n - 1) as u64;
        mobility_total(nbb, bbb, rbb, qbb, allies, occ, n - 1) + (if bit(nbb, s) {
            N_MOB * pop64(knight_moves(s, allies))
        } else {
            0
        }) + (if bit(bbb, s) {
            B_MOB * pop64(bishop_moves(occ, s, allies))
        } else {
            0
        }) + (if bit(rbb, s) {
            R_MOB * pop64(rook_moves(occ, s, allies))
        } else {
            0
        }) + (if bit(qbb, s) {
            Q_MOB * (pop64(bishop_moves(occ, s, allies)) + pop64(rook_moves(occ, s, allies)))
        } else {
            0
        })
    }
}

/// One side's full score: material, pawn advancement, and mobility, with
/// that side's boards in the first color's frame and `opp` the other side's
/// occupancy (in the same frame).
pub open spec fn side_eval(p: u64, n: u64, bsh: u64, r: u64, q: u64, kg: u64, opp: u64) -> int {
    let allies = p | n | bsh | r | q | kg;
    let occ = allies | opp;
    material(p, n, bsh, r, q) + pawn_total(p, 64) + mobility_total(n, bsh, r, q, allies, occ, 64)
}

pub open spec fn white_occ(b: Board) -> u64 {
    b.w_p_bb | b.w_n_bb | b.w_b_bb | b.w_r_bb | b.w_q_bb | b.w_k_bb
}

pub open spec fn black_occ(b: Board) -> u64 {
    b.b_p_bb | b.b_n_bb | b.b_b_bb | b.b_r_bb | b.b_q_bb | b.b_k_bb
}

/// The full score from the first color's perspective: its own side's score
/// minus the second color's, the latter computed on the reflected boards.
pub open spec fn eval_score(b: Board) -> int {
    side_eval(b.w_p_bb, b.w_n_bb, b.w_b_bb, b.w_r_bb, b.w_q_bb, b.w_k_bb, black_occ(b))
        - side_eval(
        vflip(b.b_p_bb),
        vflip(b.b_n_bb),
        vflip(b.b_b_bb),
        vflip(b.b_r_bb),
        vflip(b.b_q_bb),
        vflip(b.b_k_bb),
        vflip(white_occ(b)),
    )
}

proof fn lemma_pawn_total_bounds(p: u64, n: int)
    requires
        0 <= n <= 64,
    ensures
        0 <= pawn_total(p, n) <= 4900 * n,
    decreases n,
{
    if n > 0 {
        lemma_pawn_total_bounds(p, n - 1);
        let r = (n - 1) / 8;
        assert(0 <= r <= 7);
        assert(100 * r * r <= 4900) by (nonlinear_arith)
            requires
                0 <= r <= 7,
        ;
    }
}

proof fn lemma_mobility_total_bounds(
    nbb: u64,
    bbb: u64,
    rbb: u64,
    qbb: u64,
    allies: u64,
    occ: u64,
    n: int,
)
    requires
        0 <= n <= 64,
    ensures
        0 <= mobility_total(nbb, bbb, rbb, qbb, allies, occ, n) <= 116736 * n,
    decreases n,
{
    if n > 0 {
        lemma_mobility_total_bounds(nbb, bbb, rbb, qbb, allies, occ, n - 1);
        let s = (n - 1) as u64;
        lemma_pop_bits_le(knight_moves(s, allies), 64);
        lemma_pop_bits_le(bishop_moves(occ, s, allies), 64);
        lemma_pop_bits_le(rook_moves(occ, s, allies), 64);
    }
}

/// Pawn bonus of one side's pawn board, in the first color's frame.
fn pawn_score(p: u64) -> (sc: u64)
    ensures
        sc == pawn_total(p, 64),
        sc <= 313600,
{
    let mut sc: u64 = 0;
    let mut s: u64 = 0;
    while s < 64
        invariant
            s <= 64,
            sc == pawn_total(p, s as int),
            sc <= 4900 * s,
        decreases 64 - s,
    {
        proof {
            lemma_pawn_total_bounds(p, s as int + 1);
        }
        if p & (1u64 << s) != 0 {
            let r: u64 = s / 8;
            sc = sc + 100 * r * r;
        }
        s = s + 1;
    }
    sc
}

/// Weighted mobility of one side's knights, bishops, rooks and queens.
fn mobility(nbb: u64, bbb: u64, rbb: u64, qbb: u64, allies: u64, occ: u64) -> (sc: u64)
    ensures
        sc == mobility_total(nbb, bbb, rbb, qbb, allies, occ, 64),
        sc <= 7471104,
{
    let mut sc: u64 = 0;
    let mut s: u64 = 0;
    while s < 64
        invariant
            s <= 64,
            sc == mobility_total(nbb, bbb, rbb, qbb, allies, occ, s as int),
            sc <= 116736 * s,
        decreases 64 - s,
    {
        proof {
            lemma_mobility_total_bounds(nbb, bbb, rbb, qbb, allies, occ, s as int + 1);
            lemma_pop_bits_le(knight_moves(s, allies), 64);
            lemma_pop_bits_le(bishop_moves(occ, s, allies), 64);
            lemma_pop_bits_le(rook_moves(occ, s, allies), 64);
        }
        if nbb & (1u64 << s) != 0 {
            sc = sc + N_MOB * (popcnt(knight_moves_from(s, allies)) as u64);
        }
        if bbb & (1u64 << s) != 0 {
            sc = sc + B_MOB * (popcnt(bishop_moves_from(s, allies, occ)) as u64);
        }
        if rbb & (1u64 << s) != 0 {
            sc = sc + R_MOB * (popcnt(rook_moves_from(s, allies, occ)) as u64);
        }
        if qbb & (1u64 << s) != 0 {
            let pb = popcnt(bishop_moves_from(s, allies, occ));
            let pr = popcnt(rook_moves_from(s, allies, occ));
            sc = sc + Q_MOB * ((pb + pr) as u64);
        }
        s = s + 1;
    }
    sc
}

/// One side's full score.
fn side_eval_exec(p: u64, n: u64, bsh: u64, r: u64, q: u64, kg: u64, opp: u64) -> (sc: i64)
    ensures
        sc == side_eval(p, n, bsh, r, q, kg, opp),
        0 <= sc <= 0x2_0000_0000i64,
{
    let allies: u64 = p | n | bsh | r | q | kg;
    let occ: u64 = allies | opp;
    proof {
        lemma_pop_bits_le(p, 64);
        lemma_pop_bits_le(n, 64);
        lemma_pop_bits_le(bsh, 64);
        lemma_pop_bits_le(r, 64);
        lemma_pop_bits_le(q, 64);
    }
    let mat: u64 = P_VAL * (popcnt(p) as u64) + N_VAL * (popcnt(n) as u64) + B_VAL * (popcnt(bsh)
        as u64) + R_VAL * (popcnt(r) as u64) + Q_VAL * (popcnt(q) as u64);
    let ps = pawn_score(p);
    let mob = mobility(n, bsh, r, q, allies, occ);
    (mat + ps + mob) as i64
}

/// Detects the terminal state this layer can see: the position is drawn
/// exactly when the halfmove clock has reached the fifty-move threshold,
/// regardless of material.
pub fn eval_ending(board: &Board) -> (r: Option<Ending>)
    ensures
        r == ending_of(*board),
        r == Some(Ending::Draw) <==> board.halfmove_clock >= DRAW_CLOCK,
{
    if board.halfmove_clock >= DRAW_CLOCK {
        Some(Ending::Draw)
    } else {
        None
    }
}

/// Scores the position from the first color's perspective (positive favors
/// it), in forty-eighths of a centipawn, and reports the fifty-move draw
/// when the halfmove clock has reached the threshold.
pub fn evaluate(board: &Board) -> (r: (Option<Ending>, i64))
    ensures
        r.0 == ending_of(*board),
        board.halfmove_clock >= DRAW_CLOCK ==> r.0 == Some(Ending::Draw),
        r.1 == eval_score(*board),
{
    let end = eval_ending(board);
    let w = side_eval_exec(
        board.w_p_bb,
        board.w_n_bb,
        board.w_b_bb,
        board.w_r_bb,
        board.w_q_bb,
        board.w_k_bb,
        board.b_p_bb | board.b_n_bb | board.b_b_bb | board.b_r_bb | board.b_q_bb | board.b_k_bb,
    );
    let bl = side_eval_exec(
        vflip_exec(board.b_p_bb),
        vflip_exec(board.b_n_bb),
        vflip_exec(board.b_b_bb),
        vflip_exec(board.b_r_bb),
        vflip_exec(board.b_q_bb),
        vflip_exec(board.b_k_bb),
        vflip_exec(
            board.w_p_bb | board.w_n_bb | board.w_b_bb | board.w_r_bb | board.w_q_bb
                | board.w_k_bb,
        ),
    );
    (end, w - bl)
}

/// Mirror antisymmetry: evaluating the color-mirrored counterpart of a
/// position yields the negated score; the material, pawn and mobility terms
/// are each symmetric under the reflection by construction.
pub proof fn lemma_eval_mirror(b: Board)
    ensures
        eval_score(mirror_spec(b)) == -eval_score(b),
{
    let m = mirror_spec(b);
    lemma_vflip_or(b.w_p_bb, b.w_n_bb);
    lemma_vflip_or(b.w_p_bb | b.w_n_bb, b.w_b_bb);
    lemma_vflip_or(b.w_p_bb | b.w_n_bb | b.w_b_bb, b.w_r_bb);
    lemma_vflip_or(b.w_p_bb | b.w_n_bb | b.w_b_bb | b.w_r_bb, b.w_q_bb);
    lemma_vflip_or(b.w_p_bb | b.w_n_bb | b.w_b_bb | b.w_r_bb | b.w_q_bb, b.w_k_bb);
    assert(black_occ(m) == vflip(white_occ(b)));
    lemma_vflip_or(b.b_p_bb, b.b_n_bb);
    lemma_vflip_or(b.b_p_bb | b.b_n_bb, b.b_b_bb);
    lemma_vflip_or(b.b_p_bb | b.b_n_bb | b.b_b_bb, b.b_r_bb);
    lemma_vflip_or(b.b_p_bb | b.b_n_bb | b.b_b_bb | b.b_r_bb, b.b_q_bb);
    lemma_vflip_or(b.b_p_bb | b.b_n_bb | b.b_b_bb | b.b_r_bb | b.b_q_bb, b.b_k_bb);
    assert(white_occ(m) == vflip(black_occ(b)));
    lemma_vflip_involutive(b.w_p_bb);
    lemma_vflip_involutive(b.w_n_bb);
    lemma_vflip_involutive(b.w_b_bb);
    lemma_vflip_involutive(b.w_r_bb);
    lemma_vflip_involutive(b.w_q_bb);
    lemma_vflip_involutive(b.w_k_bb);
    lemma_vflip_involutive(black_occ(b));
}

} // verus!
