//! The bitboard position: twelve disjoint per-(color, piece-type) bit-sets,
//! side to move, castling rights, en-passant target, and the two clocks,
//! together with decoding from the six-field textual notation and the
//! single-ply transition operation.

use vstd::prelude::*;
use vstd::string::*;
use crate::bits::{
    bit, sq_bb, single_bit, vflip, vflip_exec, lemma_bit_or, lemma_bit_clear, lemma_no_common_bits,
    lemma_disjoint_bit,
};

verus! {

/// Malformed position description.
#[derive(Clone, Copy, Debug, PartialEq, Eq, Structural)]
pub enum FormatError {
    /// The description does not have exactly six whitespace-separated fields.
    WrongFieldCount,
    /// The board-layout field holds an unrecognized character.
    BadBoardChar,
    /// The board-layout field runs past the edge of the board.
    BadBoardShape,
    /// The side-to-move field is not one of the two recognized letters.
    BadSideToken,
    /// The castling field holds a character that names no right.
    BadCastlingChar,
    /// The en-passant field is neither the sentinel nor a file-rank pair.
    BadEnPassant,
    /// A clock field is not a non-negative integer in range.
    BadClock,
}

/// A move that cannot be applied.
#[derive(Clone, Copy, Debug, PartialEq, Eq, Structural)]
pub enum IllegalMoveError {
    /// No bit-set contains the origin square.
    NoPieceAtOrigin,
    /// The promotion tag names an unrecognized piece.
    BadPromotion,
}

/// The position. Bit `rank * 8 + file` of each bit-set marks occupancy;
/// rank 0 is the first color's back rank, file 0 the left-most file.
/// Piece-board indices used throughout: 0..=5 are the first color's pawn,
/// knight, bishop, rook, queen, king; 6..=11 the second color's, same order.
#[derive(Clone, Copy, Debug, PartialEq, Eq, Structural)]
pub struct Board {
    pub w_p_bb: u64,
    pub w_n_bb: u64,
    pub w_b_bb: u64,
    pub w_r_bb: u64,
    pub w_q_bb: u64,
    pub w_k_bb: u64,
    pub b_p_bb: u64,
    pub b_n_bb: u64,
    pub b_b_bb: u64,
    pub b_r_bb: u64,
    pub b_q_bb: u64,
    pub b_k_bb: u64,
    pub is_w_move: bool,
    pub is_w_castle: bool,
    pub is_w_q_castle: bool,
    pub is_b_castle: bool,
    pub is_b_q_castle: bool,
    pub en_passant: u64,
    pub halfmove_clock: u32,
    pub fullmove_clock: u32,
}

/// The `k`-th piece board.
pub open spec fn nth_bb(b: Board, k: int) -> u64 {
    if k == 0 {
        b.w_p_bb
    } else if k == 1 {
        b.w_n_bb
    } else if k == 2 {
        b.w_b_bb
    } else if k == 3 {
        b.w_r_bb
    } else if k == 4 {
        b.w_q_bb
    } else if k == 5 {
        b.w_k_bb
    } else if k == 6 {
        b.b_p_bb
    } else if k == 7 {
        b.b_n_bb
    } else if k == 8 {
        b.b_b_bb
    } else if k == 9 {
        b.b_r_bb
    } else if k == 10 {
        b.b_q_bb
    } else {
        b.b_k_bb
    }
}

/// No square is occupied by two piece boards.
pub open spec fn bbs_disjoint(b: Board) -> bool {
    forall|k1: int, k2: int|
        0 <= k1 < 12 && 0 <= k2 < 12 && k1 != k2 ==> nth_bb(b, k1) & nth_bb(b, k2) == 0
}

/// The position invariant: disjoint piece boards, and an en-passant target
/// that is empty or a single square.
pub open spec fn wf(b: Board) -> bool {
    bbs_disjoint(b) && (b.en_passant == 0 || single_bit(b.en_passant))
}

/// Index of the piece board holding `sq`, or 12 when the square is empty.
/// Under disjointness the board found is unique.
pub open spec fn piece_idx_at(b: Board, sq: u64) -> int {
    if bit(b.w_p_bb, sq) {
        0
    } else if bit(b.w_n_bb, sq) {
        1
    } else if bit(b.w_b_bb, sq) {
        2
    } else if bit(b.w_r_bb, sq) {
        3
    } else if bit(b.w_q_bb, sq) {
        4
    } else if bit(b.w_k_bb, sq) {
        5
    } else if bit(b.b_p_bb, sq) {
        6
    } else if bit(b.b_n_bb, sq) {
        7
    } else if bit(b.b_b_bb, sq) {
        8
    } else if bit(b.b_r_bb, sq) {
        9
    } else if bit(b.b_q_bb, sq) {
        10
    } else if bit(b.b_k_bb, sq) {
        11
    } else {
        12
    }
}

pub open spec fn is_file_char(c: char) -> bool {
    c == 'a' || c == 'b' || c == 'c' || c == 'd' || c == 'e' || c == 'f' || c == 'g' || c == 'h'
}

pub open spec fn file_idx(c: char) -> int {
    if c == 'a' {
        0
    } else if c == 'b' {
        1
    } else if c == 'c' {
        2
    } else if c == 'd' {
        3
    } else if c == 'e' {
        4
    } else if c == 'f' {
        5
    } else if c == 'g' {
        6
    } else {
        7
    }
}

pub open spec fn is_rank_char(c: char) -> bool {
    c == '1' || c == '2' || c == '3' || c == '4' || c == '5' || c == '6' || c == '7' || c == '8'
}

pub open spec fn rank_idx(c: char) -> int {
    if c == '1' {
        0
    } else if c == '2' {
        1
    } else if c == '3' {
        2
    } else if c == '4' {
        3
    } else if c == '5' {
        4
    } else if c == '6' {
        5
    } else if c == '7' {
        6
    } else {
        7
    }
}

/// A syntactically well-formed coordinate move string: origin file and rank,
/// destination file and rank, and at most one trailing promotion tag.
pub open spec fn move_wf(m: Seq<char>) -> bool {
    (m.len() == 4 || m.len() == 5) && is_file_char(m[0]) && is_rank_char(m[1]) && is_file_char(
        m[2],
    ) && is_rank_char(m[3])
}

/// Origin square of a coordinate move string.
pub open spec fn from_sq(m: Seq<char>) -> u64 {
    (rank_idx(m[1]) * 8 + file_idx(m[0])) as u64
}

/// Destination square of a coordinate move string.
pub open spec fn to_sq(m: Seq<char>) -> u64 {
    (rank_idx(m[3]) * 8 + file_idx(m[2])) as u64
}

/// Piece-type offset named by a promotion tag: 1 knight, 2 bishop, 3 rook,
/// 4 queen (either letter case; the mover's color supplies the color), and
/// 0 for an unrecognized tag.
pub open spec fn promo_idx(c: char) -> int {
    if c == 'n' || c == 'N' {
        1
    } else if c == 'b' || c == 'B' {
        2
    } else if c == 'r' || c == 'R' {
        3
    } else if c == 'q' || c == 'Q' {
        4
    } else {
        0
    }
}

/// The promotion offset carried by a move string: 0 when the string has no
/// fifth character or its tag is unrecognized.
pub open spec fn move_promo(m: Seq<char>) -> int {
    if m.len() == 5 {
        promo_idx(m[4])
    } else {
        0
    }
}

/// The move is a king stepping from its home square to one of the two fixed
/// castling destinations.
pub open spec fn is_castle(mover: int, from: u64, to: u64) -> bool {
    (mover == 5 && from == 4 && (to == 6 || to == 2)) || (mover == 11 && from == 60 && (to == 62
        || to == 58))
}

/// The move is a two-square pawn advance from the pawn's home rank.
pub open spec fn is_double_push(mover: int, from: u64, to: u64) -> bool {
    (mover == 0 && from / 8 == 1 && to == from + 16) || (mover == 6 && from / 8 == 6 && to + 16
        == from)
}

/// The en-passant target after the ply: the square passed over by a
/// two-square pawn advance, and empty otherwise.
pub open spec fn ep_after(mover: int, from: u64, to: u64) -> u64 {
    if mover == 0 && from / 8 == 1 && to == from + 16 {
        sq_bb((from + 8) as u64)
    } else if mover == 6 && from / 8 == 6 && to + 16 == from {
        sq_bb((from - 8) as u64)
    } else {
        0
    }
}

/// Some piece board other than the mover's occupies `to`: the ply captures.
pub open spec fn captures(b: Board, mover: int, to: u64) -> bool {
    exists|k: int| 0 <= k < 12 && k != mover && bit(#[trigger] nth_bb(b, k), to)
}

/// The piece board that receives a bit on the destination square: the
/// promotion piece in the mover's color when a tag is present, else the
/// mover's own board.
pub open spec fn dest_idx(mover: int, promo: int) -> int {
    if promo == 0 {
        mover
    } else if mover < 6 {
        promo
    } else {
        promo + 6
    }
}

/// The `k`-th piece board after one ply, following the ordered effects:
/// the capture clears `to` on every board but the mover's; a castling king
/// move relocates the corresponding rook between its fixed squares; the
/// destination board gains `to`; the mover's board loses `from`.
pub open spec fn bb_after(b: Board, k: int, mover: int, from: u64, to: u64, promo: int) -> u64 {
    let x0 = nth_bb(b, k);
    let x1 = if k != mover {
        x0 & !sq_bb(to)
    } else {
        x0
    };
    let x2 = if mover == 5 && from == 4 && to == 6 && k == 3 {
        (x1 & !sq_bb(7)) | sq_bb(5)
    } else if mover == 5 && from == 4 && to == 2 && k == 3 {
        (x1 & !sq_bb(0)) | sq_bb(3)
    } else if mover == 11 && from == 60 && to == 62 && k == 9 {
        (x1 & !sq_bb(63)) | sq_bb(61)
    } else if mover == 11 && from == 60 && to == 58 && k == 9 {
        (x1 & !sq_bb(56)) | sq_bb(59)
    } else {
        x1
    };
    let x3 = if k == dest_idx(mover, promo) {
        x2 | sq_bb(to)
    } else {
        x2
    };
    if k == mover {
        x3 & !sq_bb(from)
    } else {
        x3
    }
}

/// A clock advanced by one ply, held at its ceiling rather than wrapping.
pub open spec fn clock_inc(c: u32) -> u32 {
    if c == u32::MAX {
        u32::MAX
    } else {
        (c + 1) as u32
    }
}

/// The position after one ply: the twelve boards follow `bb_after`; the side
/// to move flips; a castling king move revokes both of its color's rights;
/// the en-passant target follows `ep_after`; the halfmove clock resets on a
/// capture or pawn move and otherwise advances; the fullmove clock advances
/// only after the second color's ply.
pub open spec fn apply_move(b: Board, mover: int, from: u64, to: u64, promo: int) -> Board {
    Board {
        w_p_bb: bb_after(b, 0, mover, from, to, promo),
        w_n_bb: bb_after(b, 1, mover, from, to, promo),
        w_b_bb: bb_after(b, 2, mover, from, to, promo),
        w_r_bb: bb_after(b, 3, mover, from, to, promo),
        w_q_bb: bb_after(b, 4, mover, from, to, promo),
        w_k_bb: bb_after(b, 5, mover, from, to, promo),
        b_p_bb: bb_after(b, 6, mover, from, to, promo),
        b_n_bb: bb_after(b, 7, mover, from, to, promo),
        b_b_bb: bb_after(b, 8, mover, from, to, promo),
        b_r_bb: bb_after(b, 9, mover, from, to, promo),
        b_q_bb: bb_after(b, 10, mover, from, to, promo),
        b_k_bb: bb_after(b, 11, mover, from, to, promo),
        is_w_move: !b.is_w_move,
        is_w_castle: b.is_w_castle && !(mover == 5 && from == 4 && (to == 6 || to == 2)),
        is_w_q_castle: b.is_w_q_castle && !(mover == 5 && from == 4 && (to == 6 || to == 2)),
        is_b_castle: b.is_b_castle && !(mover == 11 && from == 60 && (to == 62 || to == 58)),
        is_b_q_castle: b.is_b_q_castle && !(mover == 11 && from == 60 && (to == 62 || to == 58)),
        en_passant: ep_after(mover, from, to),
        halfmove_clock: if captures(b, mover, to) || mover == 0 || mover == 6 {
            0
        } else {
            clock_inc(b.halfmove_clock)
        },
        fullmove_clock: if mover >= 6 {
            clock_inc(b.fullmove_clock)
        } else {
            b.fullmove_clock
        },
    }
}

/// The position with colors exchanged and the board reflected top-to-bottom.
pub open spec fn mirror_spec(b: Board) -> Board {
    Board {
        w_p_bb: vflip(b.b_p_bb),
        w_n_bb: vflip(b.b_n_bb),
        w_b_bb: vflip(b.b_b_bb),
        w_r_bb: vflip(b.b_r_bb),
        w_q_bb: vflip(b.b_q_bb),
        w_k_bb: vflip(b.b_k_bb),
        b_p_bb: vflip(b.w_p_bb),
        b_n_bb: vflip(b.w_n_bb),
        b_b_bb: vflip(b.w_b_bb),
        b_r_bb: vflip(b.w_r_bb),
        b_q_bb: vflip(b.w_q_bb),
        b_k_bb: vflip(b.w_k_bb),
        is_w_move: !b.is_w_move,
        is_w_castle: b.is_b_castle,
        is_w_q_castle: b.is_b_q_castle,
        is_b_castle: b.is_w_castle,
        is_b_q_castle: b.is_w_q_castle,
        en_passant: vflip(b.en_passant),
        halfmove_clock: b.halfmove_clock,
        fullmove_clock: b.fullmove_clock,
    }
}

/// The piece-board index of the rook moved by a castling king of `mover`.
pub open spec fn castle_rook_idx(mover: int) -> int {
    if mover == 5 {
        3
    } else {
        9
    }
}

/// The square the castling rook lands on.
pub open spec fn castle_rook_to(mover: int, to: u64) -> u64 {
    if mover == 5 {
        if to == 6 {
            5
        } else {
            3
        }
    } else {
        if to == 62 {
            61
        } else {
            59
        }
    }
}

/// The square the castling rook leaves.
pub open spec fn castle_rook_from(mover: int, to: u64) -> u64 {
    if mover == 5 {
        if to == 6 {
            7
        } else {
            0
        }
    } else {
        if to == 62 {
            63
        } else {
            56
        }
    }
}

/// Square `i` of the `k`-th board after the ply, as a boolean formula: the
/// old occupancy survives the capture clear, the castling rook relocation,
/// and the origin clear; the destination board gains `to`; a castling rook
/// gains its post-castle square.
pub open spec fn bb_after_bit(
    b: Board,
    k: int,
    mover: int,
    from: u64,
    to: u64,
    promo: int,
    i: u64,
) -> bool {
    let survives = bit(nth_bb(b, k), i) && !(k != mover && i == to) && !(is_castle(mover, from, to)
        && k == castle_rook_idx(mover) && i == castle_rook_from(mover, to));
    let placed = survives || (is_castle(mover, from, to) && k == castle_rook_idx(mover) && i
        == castle_rook_to(mover, to)) || (k == dest_idx(mover, promo) && i == to);
    placed && !(k == mover && i == from)
}

/// Relates the board-level transition to its per-square formula.
proof fn lemma_bb_after_bit(b: Board, k: int, mover: int, from: u64, to: u64, promo: int, i: u64)
    requires
        0 <= k < 12,
        0 <= mover < 12,
        from < 64,
        to < 64,
        0 <= promo <= 4,
        i < 64,
    ensures
        bit(bb_after(b, k, mover, from, to, promo), i) == bb_after_bit(
            b,
            k,
            mover,
            from,
            to,
            promo,
            i,
        ),
{
    let x0 = nth_bb(b, k);
    lemma_bit_clear(x0, to, i);
    let x1 = if k != mover {
        x0 & !sq_bb(to)
    } else {
        x0
    };
    lemma_bit_clear(x1, 7, i);
    lemma_bit_or(x1 & !sq_bb(7), 5, i);
    lemma_bit_clear(x1, 0, i);
    lemma_bit_or(x1 & !sq_bb(0), 3, i);
    lemma_bit_clear(x1, 63, i);
    lemma_bit_or(x1 & !sq_bb(63), 61, i);
    lemma_bit_clear(x1, 56, i);
    lemma_bit_or(x1 & !sq_bb(56), 59, i);
    let x2 = if mover == 5 && from == 4 && to == 6 && k == 3 {
        (x1 & !sq_bb(7)) | sq_bb(5)
    } else if mover == 5 && from == 4 && to == 2 && k == 3 {
        (x1 & !sq_bb(0)) | sq_bb(3)
    } else if mover == 11 && from == 60 && to == 62 && k == 9 {
        (x1 & !sq_bb(63)) | sq_bb(61)
    } else if mover == 11 && from == 60 && to == 58 && k == 9 {
        (x1 & !sq_bb(56)) | sq_bb(59)
    } else {
        x1
    };
    lemma_bit_or(x2, to, i);
    let x3 = if k == dest_idx(mover, promo) {
        x2 | sq_bb(to)
    } else {
        x2
    };
    lemma_bit_clear(x3, from, i);
}

/// Disjointness of the twelve piece boards is an invariant of the
/// transition: every applied ply preserves it, provided a castling rook's
/// destination square is not occupied by any other board, and a promotion
/// destination does not hold one of the mover's own pieces. (A pseudo-legal
/// castle onto an occupied rook square would stack two pieces; legality
/// filtering is the caller's concern.)
pub proof fn lemma_apply_move_preserves_wf(b: Board, mover: int, from: u64, to: u64, promo: int)
    requires
        wf(b),
        0 <= mover < 12,
        from < 64,
        to < 64,
        0 <= promo <= 4,
        promo != 0 ==> !bit(nth_bb(b, mover), to),
        is_castle(mover, from, to) ==> forall|k: int|
            0 <= k < 12 && k != castle_rook_idx(mover) ==> !bit(
                #[trigger] nth_bb(b, k),
                castle_rook_to(mover, to),
            ),
    ensures
        wf(apply_move(b, mover, from, to, promo)),
{
    let a = apply_move(b, mover, from, to, promo);
    assert forall|k: int| 0 <= k < 12 implies #[trigger] nth_bb(a, k) == bb_after(
        b,
        k,
        mover,
        from,
        to,
        promo,
    ) by {}
    assert forall|k1: int, k2: int|
        0 <= k1 < 12 && 0 <= k2 < 12 && k1 != k2 implies nth_bb(a, k1) & nth_bb(a, k2) == 0 by {
        let n1 = nth_bb(a, k1);
        let n2 = nth_bb(a, k2);
        assert forall|i: u64| i < 64 implies !(bit(n1, i) && bit(n2, i)) by {
            lemma_bb_after_bit(b, k1, mover, from, to, promo, i);
            lemma_bb_after_bit(b, k2, mover, from, to, promo, i);
            lemma_disjoint_bit(nth_bb(b, k1), nth_bb(b, k2), i);
        }
        lemma_no_common_bits(n1, n2);
    }
    let ep = a.en_passant;
    if mover == 0 && from / 8 == 1 && to == from + 16 {
        let v = (from + 8) as u64;
        assert(v < 64 && ep == sq_bb(v));
        assert(single_bit(ep));
    } else if mover == 6 && from / 8 == 6 && to + 16 == from {
        let v = (from - 8) as u64;
        assert(v < 64 && ep == sq_bb(v));
        assert(single_bit(ep));
    }
}

fn nth_bb_exec(b: &Board, k: usize) -> (r: u64)
    requires
        k < 12,
    ensures
        r == nth_bb(*b, k as int),
{
    if k == 0 {
        b.w_p_bb
    } else if k == 1 {
        b.w_n_bb
    } else if k == 2 {
        b.w_b_bb
    } else if k == 3 {
        b.w_r_bb
    } else if k == 4 {
        b.w_q_bb
    } else if k == 5 {
        b.w_k_bb
    } else if k == 6 {
        b.b_p_bb
    } else if k == 7 {
        b.b_n_bb
    } else if k == 8 {
        b.b_b_bb
    } else if k == 9 {
        b.b_r_bb
    } else if k == 10 {
        b.b_q_bb
    } else {
        b.b_k_bb
    }
}

fn captures_exec(b: &Board, mover: usize, to: u64) -> (r: bool)
    requires
        mover < 12,
        to < 64,
    ensures
        r == captures(*b, mover as int, to),
{
    let mut k: usize = 0;
    while k < 12
        invariant
            k <= 12,
            mover < 12,
            to < 64,
            forall|j: int| 0 <= j < k && j != mover ==> !bit(#[trigger] nth_bb(*b, j), to),
        decreases 12 - k,
    {
        if k != mover && nth_bb_exec(b, k) & (1u64 << to) != 0 {
            assert(bit(nth_bb(*b, k as int), to));
            return true;
        }
        k = k + 1;
    }
    false
}

fn bb_after_exec(b: &Board, k: usize, mover: usize, from: u64, to: u64, promo: usize) -> (r: u64)
    requires
        k < 12,
        mover < 12,
        from < 64,
        to < 64,
        promo <= 4,
    ensures
        r == bb_after(*b, k as int, mover as int, from, to, promo as int),
{
    let x0 = nth_bb_exec(b, k);
    let x1 = if k != mover {
        x0 & !(1u64 << to)
    } else {
        x0
    };
    let x2 = if mover == 5 && from == 4 && to == 6 && k == 3 {
        (x1 & !(1u64 << 7u64)) | (1u64 << 5u64)
    } else if mover == 5 && from == 4 && to == 2 && k == 3 {
        (x1 & !(1u64 << 0u64)) | (1u64 << 3u64)
    } else if mover == 11 && from == 60 && to == 62 && k == 9 {
        (x1 & !(1u64 << 63u64)) | (1u64 << 61u64)
    } else if mover == 11 && from == 60 && to == 58 && k == 9 {
        (x1 & !(1u64 << 56u64)) | (1u64 << 59u64)
    } else {
        x1
    };
    let dest: usize = if promo == 0 {
        mover
    } else if mover < 6 {
        promo
    } else {
        promo + 6
    };
    let x3 = if k == dest {
        x2 | (1u64 << to)
    } else {
        x2
    };
    if k == mover {
        x3 & !(1u64 << from)
    } else {
        x3
    }
}

/// File index of a file letter.
pub(crate) fn file_char_exec(c: char) -> (f: u64)
    requires
        is_file_char(c),
    ensures
        f == file_idx(c),
        f < 8,
{
    if c == 'a' {
        0
    } else if c == 'b' {
        1
    } else if c == 'c' {
        2
    } else if c == 'd' {
        3
    } else if c == 'e' {
        4
    } else if c == 'f' {
        5
    } else if c == 'g' {
        6
    } else {
        7
    }
}

/// Rank index of a rank digit.
pub(crate) fn rank_char_exec(c: char) -> (r: u64)
    requires
        is_rank_char(c),
    ensures
        r == rank_idx(c),
        r < 8,
{
    if c == '1' {
        0
    } else if c == '2' {
        1
    } else if c == '3' {
        2
    } else if c == '4' {
        3
    } else if c == '5' {
        4
    } else if c == '6' {
        5
    } else if c == '7' {
        6
    } else {
        7
    }
}

/// Decides whether a string is a syntactically well-formed coordinate move,
/// as `do_move` requires.
pub fn is_move_string(mov: &str) -> (r: bool)
    ensures
        r == move_wf(mov@),
{
    let n = mov.unicode_len();
    if n != 4 && n != 5 {
        return false;
    }
    let c0 = mov.get_char(0);
    let c1 = mov.get_char(1);
    let c2 = mov.get_char(2);
    let c3 = mov.get_char(3);
    let f0 = c0 == 'a' || c0 == 'b' || c0 == 'c' || c0 == 'd' || c0 == 'e' || c0 == 'f' || c0
        == 'g' || c0 == 'h';
    let r1 = c1 == '1' || c1 == '2' || c1 == '3' || c1 == '4' || c1 == '5' || c1 == '6' || c1
        == '7' || c1 == '8';
    let f2 = c2 == 'a' || c2 == 'b' || c2 == 'c' || c2 == 'd' || c2 == 'e' || c2 == 'f' || c2
        == 'g' || c2 == 'h';
    let r3 = c3 == '1' || c3 == '2' || c3 == '3' || c3 == '4' || c3 == '5' || c3 == '6' || c3
        == '7' || c3 == '8';
    f0 && r1 && f2 && r3
}

impl Board {
    /// Applies exactly one ply, with no legality checking beyond the
    /// existence of a piece on the origin square. Fails when no piece board
    /// contains the origin, or when the promotion tag names no recognized
    /// piece; on failure the position is unchanged.
    pub fn do_move(&mut self, mov: &str) -> (r: Result<(), IllegalMoveError>)
        requires
            move_wf(mov@),
        ensures
            match r {
                Ok(_) => piece_idx_at(*old(self), from_sq(mov@)) < 12 && (mov@.len() == 5
                    ==> promo_idx(mov@[4]) != 0) && *final(self) == apply_move(
                    *old(self),
                    piece_idx_at(*old(self), from_sq(mov@)),
                    from_sq(mov@),
                    to_sq(mov@),
                    move_promo(mov@),
                ),
                Err(e) => *final(self) == *old(self) && if e == IllegalMoveError::NoPieceAtOrigin {
                    piece_idx_at(*old(self), from_sq(mov@)) == 12
                } else {
                    piece_idx_at(*old(self), from_sq(mov@)) < 12 && mov@.len() == 5 && promo_idx(
                        mov@[4],
                    ) == 0
                },
            },
            // After any applied ply that is not a two-square pawn advance the
            // en-passant target is empty.
            r is Ok && !is_double_push(
                piece_idx_at(*old(self), from_sq(mov@)),
                from_sq(mov@),
                to_sq(mov@),
            ) ==> final(self).en_passant == 0,
    {
        let ff: u64 = file_char_exec(mov.get_char(0));
        let fr: u64 = rank_char_exec(mov.get_char(1));
        let tf: u64 = file_char_exec(mov.get_char(2));
        let tr: u64 = rank_char_exec(mov.get_char(3));
        let from: u64 = fr * 8 + ff;
        let to: u64 = tr * 8 + tf;
        assert(from == from_sq(mov@) && to == to_sq(mov@));
        let fm: u64 = 1u64 << from;

        // Locate the unique piece board containing the origin square.
        let mover: usize = if self.w_p_bb & fm != 0 {
            0
        } else if self.w_n_bb & fm != 0 {
            1
        } else if self.w_b_bb & fm != 0 {
            2
        } else if self.w_r_bb & fm != 0 {
            3
        } else if self.w_q_bb & fm != 0 {
            4
        } else if self.w_k_bb & fm != 0 {
            5
        } else if self.b_p_bb & fm != 0 {
            6
        } else if self.b_n_bb & fm != 0 {
            7
        } else if self.b_b_bb & fm != 0 {
            8
        } else if self.b_r_bb & fm != 0 {
            9
        } else if self.b_q_bb & fm != 0 {
            10
        } else if self.b_k_bb & fm != 0 {
            11
        } else {
            return Err(IllegalMoveError::NoPieceAtOrigin);
        };
        assert(mover == piece_idx_at(*self, from));

        let promo: usize = if mov.unicode_len() == 5 {
            let c4 = mov.get_char(4);
            let pk: usize = if c4 == 'n' || c4 == 'N' {
                1
            } else if c4 == 'b' || c4 == 'B' {
                2
            } else if c4 == 'r' || c4 == 'R' {
                3
            } else if c4 == 'q' || c4 == 'Q' {
                4
            } else {
                0
            };
            if pk == 0 {
                return Err(IllegalMoveError::BadPromotion);
            }
            pk
        } else {
            0
        };
        assert(promo == move_promo(mov@));

        let b0 = *self;
        let capt = captures_exec(&b0, mover, to);
        *self = Board {
            w_p_bb: bb_after_exec(&b0, 0, mover, from, to, promo),
            w_n_bb: bb_after_exec(&b0, 1, mover, from, to, promo),
            w_b_bb: bb_after_exec(&b0, 2, mover, from, to, promo),
            w_r_bb: bb_after_exec(&b0, 3, mover, from, to, promo),
            w_q_bb: bb_after_exec(&b0, 4, mover, from, to, promo),
            w_k_bb: bb_after_exec(&b0, 5, mover, from, to, promo),
            b_p_bb: bb_after_exec(&b0, 6, mover, from, to, promo),
            b_n_bb: bb_after_exec(&b0, 7, mover, from, to, promo),
            b_b_bb: bb_after_exec(&b0, 8, mover, from, to, promo),
            b_r_bb: bb_after_exec(&b0, 9, mover, from, to, promo),
            b_q_bb: bb_after_exec(&b0, 10, mover, from, to, promo),
            b_k_bb: bb_after_exec(&b0, 11, mover, from, to, promo),
            is_w_move: !b0.is_w_move,
            is_w_castle: b0.is_w_castle && !(mover == 5 && from == 4 && (to == 6 || to == 2)),
            is_w_q_castle: b0.is_w_q_castle && !(mover == 5 && from == 4 && (to == 6 || to == 2)),
            is_b_castle: b0.is_b_castle && !(mover == 11 && from == 60 && (to == 62 || to == 58)),
            is_b_q_castle: b0.is_b_q_castle && !(mover == 11 && from == 60 && (to == 62
                || to == 58)),
            en_passant: if mover == 0 && from / 8 == 1 && to == from + 16 {
                1u64 << (from + 8)
            } else if mover == 6 && from / 8 == 6 && to + 16 == from {
                1u64 << (from - 8)
            } else {
                0
            },
            halfmove_clock: if capt || mover == 0 || mover == 6 {
                0
            } else if b0.halfmove_clock == u32::MAX {
                u32::MAX
            } else {
                b0.halfmove_clock + 1
            },
            fullmove_clock: if mover >= 6 {
                if b0.fullmove_clock == u32::MAX {
                    u32::MAX
                } else {
                    b0.fullmove_clock + 1
                }
            } else {
                b0.fullmove_clock
            },
        };
        assert(*self == apply_move(b0, mover as int, from, to, promo as int));
        Ok(())
    }

    /// The position with colors exchanged and the board reflected
    /// top-to-bottom: the color-mirrored counterpart.
    pub fn mirror(&self) -> (m: Board)
        ensures
            m == mirror_spec(*self),
    {
        Board {
            w_p_bb: vflip_exec(self.b_p_bb),
            w_n_bb: vflip_exec(self.b_n_bb),
            w_b_bb: vflip_exec(self.b_b_bb),
            w_r_bb: vflip_exec(self.b_r_bb),
            w_q_bb: vflip_exec(self.b_q_bb),
            w_k_bb: vflip_exec(self.b_k_bb),
            b_p_bb: vflip_exec(self.w_p_bb),
            b_n_bb: vflip_exec(self.w_n_bb),
            b_b_bb: vflip_exec(self.w_b_bb),
            b_r_bb: vflip_exec(self.w_r_bb),
            b_q_bb: vflip_exec(self.w_q_bb),
            b_k_bb: vflip_exec(self.w_k_bb),
            is_w_move: !self.is_w_move,
            is_w_castle: self.is_b_castle,
            is_w_q_castle: self.is_b_q_castle,
            is_b_castle: self.is_w_castle,
            is_b_q_castle: self.is_w_q_castle,
            en_passant: vflip_exec(self.en_passant),
            halfmove_clock: self.halfmove_clock,
            fullmove_clock: self.fullmove_clock,
        }
    }
}

} // verus!
