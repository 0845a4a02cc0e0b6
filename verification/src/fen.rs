//! Decoding of the six-field, whitespace-separated position description:
//! board layout, side to move, castling rights, en-passant target, halfmove
//! clock, fullmove clock. The specification-level parser `parse_fen` defines
//! the meaning of every input; `Board::new` is proved to return exactly it.

use vstd::prelude::*;
use vstd::string::*;
use crate::bits::{bit, sq_bb, single_bit, lemma_bit_or, lemma_disjoint_bit};
use crate::board::{
    Board, FormatError, is_file_char, file_idx, is_rank_char, rank_idx, nth_bb, bbs_disjoint, wf,
};
use vstd::arithmetic::div_mod::lemma_fundamental_div_mod_converse;

verus! {

/// Field-separating whitespace.
pub open spec fn is_ws(c: char) -> bool {
    c == ' ' || c == '\t' || c == '\n' || c == '\r' || c == '\u{000c}'
}

/// Position right after the token starting at `i`: the first index at or
/// past `i` holding whitespace, or the end of `s`.
pub open spec fn token_end(s: Seq<char>, i: int) -> int
    decreases s.len() - i,
{
    if i < 0 || i >= s.len() || is_ws(s[i]) {
        i
    } else {
        token_end(s, i + 1)
    }
}

pub proof fn lemma_token_end_bounds(s: Seq<char>, i: int)
    requires
        0 <= i <= s.len(),
    ensures
        i <= token_end(s, i) <= s.len(),
    decreases s.len() - i,
{
    if i < s.len() && !is_ws(s[i]) {
        lemma_token_end_bounds(s, i + 1);
    }
}

/// The whitespace-separated fields of `s` from position `i` on, in order.
pub open spec fn fields_from(s: Seq<char>, i: int) -> Seq<Seq<char>>
    decreases s.len() - i,
    via fields_from_dec
{
    if i < 0 || i >= s.len() {
        Seq::empty()
    } else if is_ws(s[i]) {
        fields_from(s, i + 1)
    } else {
        seq![s.subrange(i, token_end(s, i))] + fields_from(s, token_end(s, i))
    }
}

#[via_fn]
proof fn fields_from_dec(s: Seq<char>, i: int) {
    if 0 <= i && i < s.len() && !is_ws(s[i]) {
        lemma_token_end_bounds(s, i + 1);
    }
}

/// The whitespace-separated fields of `s`, in order.
pub open spec fn fields_of(s: Seq<char>) -> Seq<Seq<char>> {
    fields_from(s, 0)
}

/// The views of a sequence of character vectors.
pub open spec fn views_of(v: Seq<Vec<char>>) -> Seq<Seq<char>> {
    v.map_values(|t: Vec<char>| t@)
}

/// The board with no pieces, no rights, and zeroed clocks.
pub open spec fn empty_board() -> Board {
    Board {
        w_p_bb: 0,
        w_n_bb: 0,
        w_b_bb: 0,
        w_r_bb: 0,
        w_q_bb: 0,
        w_k_bb: 0,
        b_p_bb: 0,
        b_n_bb: 0,
        b_b_bb: 0,
        b_r_bb: 0,
        b_q_bb: 0,
        b_k_bb: 0,
        is_w_move: false,
        is_w_castle: false,
        is_w_q_castle: false,
        is_b_castle: false,
        is_b_q_castle: false,
        en_passant: 0,
        halfmove_clock: 0,
        fullmove_clock: 0,
    }
}

/// Piece-board index named by a layout letter (case selects the color),
/// or 12 for a character that names no piece.
pub open spec fn piece_char_idx(c: char) -> int {
    if c == 'P' {
        0
    } else if c == 'N' {
        1
    } else if c == 'B' {
        2
    } else if c == 'R' {
        3
    } else if c == 'Q' {
        4
    } else if c == 'K' {
        5
    } else if c == 'p' {
        6
    } else if c == 'n' {
        7
    } else if c == 'b' {
        8
    } else if c == 'r' {
        9
    } else if c == 'q' {
        10
    } else if c == 'k' {
        11
    } else {
        12
    }
}

/// `b` with square-set `m` merged into its `k`-th piece board.
pub open spec fn with_bb_or(b: Board, k: int, m: u64) -> Board {
    if k == 0 {
        Board { w_p_bb: b.w_p_bb | m, ..b }
    } else if k == 1 {
        Board { w_n_bb: b.w_n_bb | m, ..b }
    } else if k == 2 {
        Board { w_b_bb: b.w_b_bb | m, ..b }
    } else if k == 3 {
        Board { w_r_bb: b.w_r_bb | m, ..b }
    } else if k == 4 {
        Board { w_q_bb: b.w_q_bb | m, ..b }
    } else if k == 5 {
        Board { w_k_bb: b.w_k_bb | m, ..b }
    } else if k == 6 {
        Board { b_p_bb: b.b_p_bb | m, ..b }
    } else if k == 7 {
        Board { b_n_bb: b.b_n_bb | m, ..b }
    } else if k == 8 {
        Board { b_b_bb: b.b_b_bb | m, ..b }
    } else if k == 9 {
        Board { b_r_bb: b.b_r_bb | m, ..b }
    } else if k == 10 {
        Board { b_q_bb: b.b_q_bb | m, ..b }
    } else {
        Board { b_k_bb: b.b_k_bb | m, ..b }
    }
}

/// One layout character: a piece letter fills the current square and steps
/// one file right; a digit skips that many files; the separator moves one
/// rank down and back to the left-most file; anything else fails. Running
/// past a rank's last file or below the bottom rank fails.
pub open spec fn layout_step(b: Board, row: int, col: int, c: char) -> Result<
    (Board, int, int),
    FormatError,
> {
    if piece_char_idx(c) < 12 {
        if col >= 8 {
            Err(FormatError::BadBoardShape)
        } else {
            Ok((with_bb_or(b, piece_char_idx(c), sq_bb((row * 8 + col) as u64)), row, col + 1))
        }
    } else if is_rank_char(c) {
        if col + rank_idx(c) + 1 > 8 {
            Err(FormatError::BadBoardShape)
        } else {
            Ok((b, row, col + rank_idx(c) + 1))
        }
    } else if c == '/' {
        if row == 0 {
            Err(FormatError::BadBoardShape)
        } else {
            Ok((b, row - 1, 0))
        }
    } else {
        Err(FormatError::BadBoardChar)
    }
}

/// The layout scan, from the topmost rank, leftmost file.
pub open spec fn scan_layout(b: Board, row: int, col: int, s: Seq<char>) -> Result<
    (Board, int, int),
    FormatError,
>
    decreases s.len(),
{
    if s.len() == 0 {
        Ok((b, row, col))
    } else {
        match layout_step(b, row, col, s[0]) {
            Ok(st) => scan_layout(st.0, st.1, st.2, s.drop_first()),
            Err(e) => Err(e),
        }
    }
}

/// The side-to-move field: exactly one of the two recognized letters.
pub open spec fn parse_side(s: Seq<char>) -> Result<bool, FormatError> {
    if s == seq!['w'] {
        Ok(true)
    } else if s == seq!['b'] {
        Ok(false)
    } else {
        Err(FormatError::BadSideToken)
    }
}

/// One castling letter sets one flag (king-side/queen-side times color).
pub open spec fn castle_step(f: (bool, bool, bool, bool), c: char) -> Result<
    (bool, bool, bool, bool),
    FormatError,
> {
    if c == 'K' {
        Ok((true, f.1, f.2, f.3))
    } else if c == 'Q' {
        Ok((f.0, true, f.2, f.3))
    } else if c == 'k' {
        Ok((f.0, f.1, true, f.3))
    } else if c == 'q' {
        Ok((f.0, f.1, f.2, true))
    } else {
        Err(FormatError::BadCastlingChar)
    }
}

pub open spec fn scan_castle(f: (bool, bool, bool, bool), s: Seq<char>) -> Result<
    (bool, bool, bool, bool),
    FormatError,
>
    decreases s.len(),
{
    if s.len() == 0 {
        Ok(f)
    } else {
        match castle_step(f, s[0]) {
            Ok(f2) => scan_castle(f2, s.drop_first()),
            Err(e) => Err(e),
        }
    }
}

/// The castling field: the no-rights sentinel leaves all flags unset; any
/// other field must spell rights letter by letter. A flag not mentioned
/// remains unset.
pub open spec fn parse_castle(s: Seq<char>) -> Result<(bool, bool, bool, bool), FormatError> {
    if s == seq!['-'] {
        Ok((false, false, false, false))
    } else {
        scan_castle((false, false, false, false), s)
    }
}

/// The en-passant field: the sentinel gives the empty target; a file-rank
/// pair gives a single set bit; anything else fails.
pub open spec fn parse_ep(s: Seq<char>) -> Result<u64, FormatError> {
    if s == seq!['-'] {
        Ok(0u64)
    } else if s.len() == 2 && is_file_char(s[0]) && is_rank_char(s[1]) {
        Ok(sq_bb((rank_idx(s[1]) * 8 + file_idx(s[0])) as u64))
    } else {
        Err(FormatError::BadEnPassant)
    }
}

pub open spec fn is_digit(c: char) -> bool {
    c == '0' || is_rank_char(c) || c == '9'
}

pub open spec fn digit_val(c: char) -> int {
    if c == '0' {
        0
    } else if c == '9' {
        9
    } else {
        rank_idx(c) + 1
    }
}

/// Decimal value of `s` continuing from `acc`, or nothing on a non-digit.
pub open spec fn dec_val(s: Seq<char>, acc: nat) -> Option<nat>
    decreases s.len(),
{
    if s.len() == 0 {
        Some(acc)
    } else if !is_digit(s[0]) {
        None
    } else {
        dec_val(s.drop_first(), (acc * 10 + digit_val(s[0])) as nat)
    }
}

/// A clock field: a non-negative decimal integer that fits the clock,
/// anything else fails.
pub open spec fn parse_clock(s: Seq<char>) -> Result<u32, FormatError> {
    match dec_val(s, 0) {
        Option::None => Err(FormatError::BadClock),
        Option::Some(v) => if v > u32::MAX {
            Err(FormatError::BadClock)
        } else {
            Ok(v as u32)
        },
    }
}

/// The whole six-field position description; fields are checked in order
/// and the first failure decides the error.
pub open spec fn parse_fen(s: Seq<char>) -> Result<Board, FormatError> {
    let fs = fields_of(s);
    if fs.len() != 6 {
        Err(FormatError::WrongFieldCount)
    } else {
        match scan_layout(empty_board(), 7, 0, fs[0]) {
            Err(e) => Err(e),
            Ok(st) => match parse_side(fs[1]) {
                Err(e) => Err(e),
                Ok(w) => match parse_castle(fs[2]) {
                    Err(e) => Err(e),
                    Ok(cf) => match parse_ep(fs[3]) {
                        Err(e) => Err(e),
                        Ok(ep) => match parse_clock(fs[4]) {
                            Err(e) => Err(e),
                            Ok(hm) => match parse_clock(fs[5]) {
                                Err(e) => Err(e),
                                Ok(fm) => Ok(
                                    Board {
                                        is_w_move: w,
                                        is_w_castle: cf.0,
                                        is_w_q_castle: cf.1,
                                        is_b_castle: cf.2,
                                        is_b_q_castle: cf.3,
                                        en_passant: ep,
                                        halfmove_clock: hm,
                                        fullmove_clock: fm,
                                        ..st.0
                                    },
                                ),
                            },
                        },
                    },
                },
            },
        }
    }
}

/// Layout letter of the `k`-th piece board.
pub open spec fn idx_char(k: int) -> char {
    if k == 0 {
        'P'
    } else if k == 1 {
        'N'
    } else if k == 2 {
        'B'
    } else if k == 3 {
        'R'
    } else if k == 4 {
        'Q'
    } else if k == 5 {
        'K'
    } else if k == 6 {
        'p'
    } else if k == 7 {
        'n'
    } else if k == 8 {
        'b'
    } else if k == 9 {
        'r'
    } else if k == 10 {
        'q'
    } else {
        'k'
    }
}

/// Digit for a run of `g` empty files.
pub open spec fn gap_char(g: int) -> char {
    if g == 1 {
        '1'
    } else if g == 2 {
        '2'
    } else if g == 3 {
        '3'
    } else if g == 4 {
        '4'
    } else if g == 5 {
        '5'
    } else if g == 6 {
        '6'
    } else if g == 7 {
        '7'
    } else {
        '8'
    }
}

/// One rank of the re-derived layout, from file `col` on, with `gap` empty
/// files pending: empty files coalesce into one digit, pieces appear as
/// their letters.
pub open spec fn enc_rank(b: Board, row: int, col: int, gap: int) -> Seq<char>
    decreases 8 - col,
{
    if col >= 8 {
        if gap > 0 {
            seq![gap_char(gap)]
        } else {
            Seq::empty()
        }
    } else {
        let k = crate::board::piece_idx_at(b, (row * 8 + col) as u64);
        if k == 12 {
            enc_rank(b, row, col + 1, gap + 1)
        } else if gap > 0 {
            seq![gap_char(gap), idx_char(k)] + enc_rank(b, row, col + 1, 0)
        } else {
            seq![idx_char(k)] + enc_rank(b, row, col + 1, 0)
        }
    }
}

/// What follows rank `row` in the layout: a separator and the lower ranks.
pub open spec fn rows_tail(b: Board, row: int) -> Seq<char>
    decreases row,
{
    if row > 0 {
        seq!['/'] + enc_rank(b, row - 1, 0, 0) + rows_tail(b, row - 1)
    } else {
        Seq::empty()
    }
}

/// The board-layout field re-derived from the twelve bit-sets, scanned from
/// the topmost rank to the bottommost, maximal digit runs for empty files.
pub open spec fn encode_layout(b: Board) -> Seq<char> {
    enc_rank(b, 7, 0, 0) + rows_tail(b, 7)
}

fn piece_at_exec(b: &Board, sq: u64) -> (k: usize)
    requires
        sq < 64,
    ensures
        k == crate::board::piece_idx_at(*b, sq),
{
    let m = 1u64 << sq;
    if b.w_p_bb & m != 0 {
        0
    } else if b.w_n_bb & m != 0 {
        1
    } else if b.w_b_bb & m != 0 {
        2
    } else if b.w_r_bb & m != 0 {
        3
    } else if b.w_q_bb & m != 0 {
        4
    } else if b.w_k_bb & m != 0 {
        5
    } else if b.b_p_bb & m != 0 {
        6
    } else if b.b_n_bb & m != 0 {
        7
    } else if b.b_b_bb & m != 0 {
        8
    } else if b.b_r_bb & m != 0 {
        9
    } else if b.b_q_bb & m != 0 {
        10
    } else if b.b_k_bb & m != 0 {
        11
    } else {
        12
    }
}

fn idx_char_exec(k: usize) -> (c: char)
    requires
        k < 12,
    ensures
        c == idx_char(k as int),
{
    if k == 0 {
        'P'
    } else if k == 1 {
        'N'
    } else if k == 2 {
        'B'
    } else if k == 3 {
        'R'
    } else if k == 4 {
        'Q'
    } else if k == 5 {
        'K'
    } else if k == 6 {
        'p'
    } else if k == 7 {
        'n'
    } else if k == 8 {
        'b'
    } else if k == 9 {
        'r'
    } else if k == 10 {
        'q'
    } else {
        'k'
    }
}

fn gap_char_exec(g: u64) -> (c: char)
    requires
        1 <= g <= 8,
    ensures
        c == gap_char(g as int),
{
    if g == 1 {
        '1'
    } else if g == 2 {
        '2'
    } else if g == 3 {
        '3'
    } else if g == 4 {
        '4'
    } else if g == 5 {
        '5'
    } else if g == 6 {
        '6'
    } else if g == 7 {
        '7'
    } else {
        '8'
    }
}

impl Board {
    /// Re-derives the board-layout field from the twelve bit-sets.
    #[verifier::rlimit(50)]
    pub fn layout_chars(&self) -> (r: Vec<char>)
        ensures
            r@ == encode_layout(*self),
    {
        let b = *self;
        let mut out: Vec<char> = Vec::new();
        let mut rr: usize = 0;
        while rr < 8
            invariant
                rr <= 8,
                encode_layout(b) == out@ + if rr < 8 {
                    enc_rank(b, 7 - rr, 0, 0) + rows_tail(b, 7 - rr)
                } else {
                    Seq::<char>::empty()
                },
            decreases 8 - rr,
        {
            let row: u64 = (7 - rr) as u64;
            let mut col: u64 = 0;
            let mut gap: u64 = 0;
            while col < 8
                invariant
                    col <= 8,
                    gap <= col,
                    row == 7 - rr,
                    rr < 8,
                    encode_layout(b) == out@ + enc_rank(b, row as int, col as int, gap as int)
                        + rows_tail(b, row as int),
                decreases 8 - col,
            {
                let k = piece_at_exec(&b, row * 8 + col);
                if k == 12 {
                    gap = gap + 1;
                } else {
                    let ghost pre = out@;
                    let ghost rest = enc_rank(b, row as int, col as int + 1, 0);
                    let ghost tail = rows_tail(b, row as int);
                    if gap > 0 {
                        proof {
                            assert((pre + (seq![
                                gap_char(gap as int),
                                idx_char(k as int),
                            ] + rest)) + tail =~= ((pre.push(gap_char(gap as int))).push(
                                idx_char(k as int),
                            ) + rest) + tail);
                        }
                        out.push(gap_char_exec(gap));
                        out.push(idx_char_exec(k));
                    } else {
                        proof {
                            assert((pre + (seq![idx_char(k as int)] + rest)) + tail =~= (pre.push(
                                idx_char(k as int),
                            ) + rest) + tail);
                        }
                        out.push(idx_char_exec(k));
                    }
                    gap = 0;
                }
                col = col + 1;
            }
            if gap > 0 {
                let ghost pre = out@;
                let ghost tail = rows_tail(b, row as int);
                proof {
                    assert((pre + seq![gap_char(gap as int)]) + tail =~= pre.push(
                        gap_char(gap as int),
                    ) + tail);
                }
                out.push(gap_char_exec(gap));
            } else {
                proof {
                    let pre = out@;
                    let tail = rows_tail(b, row as int);
                    assert((pre + Seq::<char>::empty()) + tail =~= pre + tail);
                }
            }
            if rr < 7 {
                let ghost pre = out@;
                proof {
                    let row2 = row as int - 1;
                    assert(rows_tail(b, row as int) == seq!['/'] + enc_rank(b, row2, 0, 0)
                        + rows_tail(b, row2));
                    assert(pre + (seq!['/'] + enc_rank(b, row2, 0, 0) + rows_tail(b, row2))
                        =~= (pre.push('/') + enc_rank(b, row2, 0, 0)) + rows_tail(b, row2));
                }
                out.push('/');
            } else {
                proof {
                    assert(rows_tail(b, 0) == Seq::<char>::empty());
                    assert(out@ + Seq::<char>::empty() =~= out@);
                }
            }
            rr = rr + 1;
        }
        out
    }
}

proof fn lemma_token_end_value(s: Seq<char>, i: int, j: int)
    requires
        0 <= i <= j <= s.len(),
        forall|k: int| i <= k < j ==> !is_ws(s[k]),
        j == s.len() || is_ws(s[j]),
    ensures
        token_end(s, i) == j,
    decreases j - i,
{
    if i < j {
        lemma_token_end_value(s, i + 1, j);
    }
}

fn is_ws_exec(c: char) -> (r: bool)
    ensures
        r == is_ws(c),
{
    c == ' ' || c == '\t' || c == '\n' || c == '\r' || c == '\u{000c}'
}

/// Splits the description into its whitespace-separated fields.
fn tokenize(s: &str) -> (r: Vec<Vec<char>>)
    ensures
        views_of(r@) == fields_of(s@),
{
    let n = s.unicode_len();
    let mut out: Vec<Vec<char>> = Vec::new();
    let mut i: usize = 0;
    while i < n
        invariant
            i <= n,
            n == s@.len(),
            fields_of(s@) == views_of(out@) + fields_from(s@, i as int),
        decreases n - i,
    {
        let c = s.get_char(i);
        if is_ws_exec(c) {
            proof {
                assert(fields_from(s@, i as int) == fields_from(s@, i as int + 1));
            }
            i = i + 1;
        } else {
            let mut tok: Vec<char> = Vec::new();
            let mut j: usize = i;
            while j < n
                invariant
                    i <= j <= n,
                    n == s@.len(),
                    tok@ == s@.subrange(i as int, j as int),
                    forall|k: int| i <= k < j ==> !is_ws(s@[k]),
                ensures
                    i <= j <= n,
                    tok@ == s@.subrange(i as int, j as int),
                    forall|k: int| i <= k < j ==> !is_ws(s@[k]),
                    j == n || is_ws(s@[j as int]),
                decreases n - j,
            {
                let cj = s.get_char(j);
                if is_ws_exec(cj) {
                    break ;
                }
                tok.push(cj);
                j = j + 1;
            }
            proof {
                assert(i < j);
                lemma_token_end_value(s@, i as int, j as int);
                let tv = views_of(out@);
                let fi = fields_from(s@, i as int);
                let fj = fields_from(s@, j as int);
                assert(fi == seq![s@.subrange(i as int, j as int)] + fj);
                assert(views_of(out@.push(tok)) =~= tv.push(tok@));
                assert(tv + fi =~= tv.push(tok@) + fj);
            }
            out.push(tok);
            i = j;
        }
    }
    proof {
        assert(views_of(out@) + fields_from(s@, n as int) =~= views_of(out@));
    }
    out
}

/// The region already scanned: every set bit lies on a higher rank, or on
/// the current rank strictly left of the current file, and the boards stay
/// disjoint.
pub open spec fn scan_inv(b: Board, row: int, col: int) -> bool {
    bbs_disjoint(b) && forall|k: int, i: u64|
        0 <= k < 12 && i < 64 && #[trigger] bit(nth_bb(b, k), i) ==> i as int / 8 > row || (
        i as int / 8 == row && i as int % 8 < col)
}

proof fn lemma_empty_scan_inv()
    ensures
        scan_inv(empty_board(), 7, 0),
{
    let b = empty_board();
    assert forall|k: int, i: u64| 0 <= k < 12 && i < 64 implies !(#[trigger] bit(nth_bb(b, k), i)) by {
        crate::bits::lemma_bit_zero(i);
    }
    assert forall|k1: int, k2: int|
        0 <= k1 < 12 && 0 <= k2 < 12 && k1 != k2 implies nth_bb(b, k1) & nth_bb(b, k2) == 0 by {
        assert(0u64 & 0u64 == 0) by (bit_vector);
    }
}

/// Placing a fresh piece on the current square preserves the scan region
/// invariant and disjointness.
proof fn lemma_place_scan_inv(b: Board, row: int, col: int, k: int)
    requires
        scan_inv(b, row, col),
        0 <= row <= 7,
        0 <= col < 8,
        0 <= k < 12,
    ensures
        scan_inv(with_bb_or(b, k, sq_bb((row * 8 + col) as u64)), row, col + 1),
{
    let j = (row * 8 + col) as u64;
    lemma_fundamental_div_mod_converse(j as int, 8, row, col);
    let nb = with_bb_or(b, k, sq_bb(j));
    assert forall|k2: int| 0 <= k2 < 12 && k2 != k implies #[trigger] nth_bb(nb, k2) == nth_bb(
        b,
        k2,
    ) by {}
    assert(nth_bb(nb, k) == nth_bb(b, k) | sq_bb(j));
    // no board holds the current square yet
    assert forall|k2: int| 0 <= k2 < 12 implies !bit(#[trigger] nth_bb(b, k2), j) by {
        if bit(nth_bb(b, k2), j) {
            assert(j as int / 8 > row || (j as int / 8 == row && j as int % 8 < col));
        }
    }
    assert forall|k1: int, k2: int|
        0 <= k1 < 12 && 0 <= k2 < 12 && k1 != k2 implies nth_bb(nb, k1) & nth_bb(nb, k2) == 0 by {
        if k1 == k {
            crate::bits::lemma_or_single_disjoint(nth_bb(b, k1), nth_bb(b, k2), j);
        } else if k2 == k {
            crate::bits::lemma_or_single_disjoint(nth_bb(b, k2), nth_bb(b, k1), j);
        }
    }
    assert forall|k2: int, i: u64|
        0 <= k2 < 12 && i < 64 && #[trigger] bit(nth_bb(nb, k2), i) implies i as int / 8 > row || (
    i as int / 8 == row && i as int % 8 < col + 1) by {
        if k2 == k {
            lemma_bit_or(nth_bb(b, k), j, i);
        }
    }
}

fn with_bb_or_exec(b: &Board, k: usize, m: u64) -> (r: Board)
    requires
        k < 12,
    ensures
        r == with_bb_or(*b, k as int, m),
{
    let mut r = *b;
    if k == 0 {
        r.w_p_bb = r.w_p_bb | m;
    } else if k == 1 {
        r.w_n_bb = r.w_n_bb | m;
    } else if k == 2 {
        r.w_b_bb = r.w_b_bb | m;
    } else if k == 3 {
        r.w_r_bb = r.w_r_bb | m;
    } else if k == 4 {
        r.w_q_bb = r.w_q_bb | m;
    } else if k == 5 {
        r.w_k_bb = r.w_k_bb | m;
    } else if k == 6 {
        r.b_p_bb = r.b_p_bb | m;
    } else if k == 7 {
        r.b_n_bb = r.b_n_bb | m;
    } else if k == 8 {
        r.b_b_bb = r.b_b_bb | m;
    } else if k == 9 {
        r.b_r_bb = r.b_r_bb | m;
    } else if k == 10 {
        r.b_q_bb = r.b_q_bb | m;
    } else {
        r.b_k_bb = r.b_k_bb | m;
    }
    r
}

fn piece_char_idx_exec(c: char) -> (k: usize)
    ensures
        k == piece_char_idx(c),
{
    if c == 'P' {
        0
    } else if c == 'N' {
        1
    } else if c == 'B' {
        2
    } else if c == 'R' {
        3
    } else if c == 'Q' {
        4
    } else if c == 'K' {
        5
    } else if c == 'p' {
        6
    } else if c == 'n' {
        7
    } else if c == 'b' {
        8
    } else if c == 'r' {
        9
    } else if c == 'q' {
        10
    } else if c == 'k' {
        11
    } else {
        12
    }
}

/// Scans the board-layout field; on success the result additionally carries
/// the scan invariant, so its piece boards are pairwise disjoint.
fn scan_layout_exec(t: &Vec<char>) -> (r: Result<Board, FormatError>)
    ensures
        match r {
            Ok(b) => scan_layout(empty_board(), 7, 0, t@) matches Ok(st) && st.0 == b
                && bbs_disjoint(b) && b.en_passant == 0,
            Err(e) => scan_layout(empty_board(), 7, 0, t@) == Err::<(Board, int, int), _>(e),
        },
{
    let mut b = Board {
        w_p_bb: 0,
        w_n_bb: 0,
        w_b_bb: 0,
        w_r_bb: 0,
        w_q_bb: 0,
        w_k_bb: 0,
        b_p_bb: 0,
        b_n_bb: 0,
        b_b_bb: 0,
        b_r_bb: 0,
        b_q_bb: 0,
        b_k_bb: 0,
        is_w_move: false,
        is_w_castle: false,
        is_w_q_castle: false,
        is_b_castle: false,
        is_b_q_castle: false,
        en_passant: 0,
        halfmove_clock: 0,
        fullmove_clock: 0,
    };
    assert(b == empty_board());
    proof {
        lemma_empty_scan_inv();
    }
    let mut row: u64 = 7;
    let mut col: u64 = 0;
    let mut i: usize = 0;
    let n = t.len();
    proof {
        assert(t@.skip(0) =~= t@);
    }
    while i < n
        invariant
            i <= n,
            n == t@.len(),
            row <= 7,
            col <= 8,
            scan_inv(b, row as int, col as int),
            b.en_passant == 0,
            scan_layout(empty_board(), 7, 0, t@) == scan_layout(
                b,
                row as int,
                col as int,
                t@.skip(i as int),
            ),
        decreases n - i,
    {
        let c = t[i];
        proof {
            assert(t@.skip(i as int)[0] == t@[i as int]);
            assert(t@.skip(i as int).drop_first() =~= t@.skip(i as int + 1));
        }
        let k = piece_char_idx_exec(c);
        if k < 12 {
            if col >= 8 {
                return Err(FormatError::BadBoardShape);
            }
            let sq: u64 = row * 8 + col;
            proof {
                lemma_place_scan_inv(b, row as int, col as int, k as int);
            }
            b = with_bb_or_exec(&b, k, 1u64 << sq);
            col = col + 1;
        } else if c == '1' || c == '2' || c == '3' || c == '4' || c == '5' || c == '6' || c == '7'
            || c == '8' {
            let d: u64 = crate::board::rank_char_exec(c) + 1;
            if col + d > 8 {
                return Err(FormatError::BadBoardShape);
            }
            col = col + d;
        } else if c == '/' {
            if row == 0 {
                return Err(FormatError::BadBoardShape);
            }
            row = row - 1;
            col = 0;
        } else {
            return Err(FormatError::BadBoardChar);
        }
        i = i + 1;
    }
    proof {
        assert(t@.skip(n as int) =~= Seq::<char>::empty());
    }
    Ok(b)
}

fn parse_side_exec(t: &Vec<char>) -> (r: Result<bool, FormatError>)
    ensures
        r == parse_side(t@),
{
    if t.len() == 1 {
        let c = t[0];
        if c == 'w' {
            assert(t@ =~= seq!['w']);
            return Ok(true);
        }
        if c == 'b' {
            assert(t@ =~= seq!['b']);
            assert(t@ != seq!['w']);
            return Ok(false);
        }
    }
    proof {
        if t@ == seq!['w'] {
            assert(t@.len() == 1 && t@[0] == 'w');
            assert(false);
        }
        if t@ == seq!['b'] {
            assert(t@.len() == 1 && t@[0] == 'b');
            assert(false);
        }
    }
    Err(FormatError::BadSideToken)
}

fn parse_castle_exec(t: &Vec<char>) -> (r: Result<(bool, bool, bool, bool), FormatError>)
    ensures
        r == parse_castle(t@),
{
    if t.len() == 1 {
        let c = t[0];
        if c == '-' {
            assert(t@ =~= seq!['-']);
            return Ok((false, false, false, false));
        }
    }
    proof {
        if t@ == seq!['-'] {
            assert(t@.len() == 1 && t@[0] == '-');
            assert(false);
        }
    }
    let mut f: (bool, bool, bool, bool) = (false, false, false, false);
    let mut i: usize = 0;
    let n = t.len();
    proof {
        assert(t@.skip(0) =~= t@);
    }
    while i < n
        invariant
            i <= n,
            n == t@.len(),
            t@ != seq!['-'],
            scan_castle((false, false, false, false), t@) == scan_castle(f, t@.skip(i as int)),
        decreases n - i,
    {
        let c = t[i];
        proof {
            assert(t@.skip(i as int)[0] == t@[i as int]);
            assert(t@.skip(i as int).drop_first() =~= t@.skip(i as int + 1));
        }
        if c == 'K' {
            f = (true, f.1, f.2, f.3);
        } else if c == 'Q' {
            f = (f.0, true, f.2, f.3);
        } else if c == 'k' {
            f = (f.0, f.1, true, f.3);
        } else if c == 'q' {
            f = (f.0, f.1, f.2, true);
        } else {
            return Err(FormatError::BadCastlingChar);
        }
        i = i + 1;
    }
    proof {
        assert(t@.skip(n as int) =~= Seq::<char>::empty());
    }
    Ok(f)
}

fn parse_ep_exec(t: &Vec<char>) -> (r: Result<u64, FormatError>)
    ensures
        r == parse_ep(t@),
        r matches Ok(v) ==> v == 0 || single_bit(v),
{
    if t.len() == 1 {
        let c = t[0];
        if c == '-' {
            assert(t@ =~= seq!['-']);
            return Ok(0u64);
        }
    }
    proof {
        if t@ == seq!['-'] {
            assert(t@.len() == 1 && t@[0] == '-');
            assert(false);
        }
    }
    if t.len() == 2 {
        let cf = t[0];
        let cr = t[1];
        let file_ok = cf == 'a' || cf == 'b' || cf == 'c' || cf == 'd' || cf == 'e' || cf == 'f'
            || cf == 'g' || cf == 'h';
        let rank_ok = cr == '1' || cr == '2' || cr == '3' || cr == '4' || cr == '5' || cr == '6'
            || cr == '7' || cr == '8';
        if file_ok && rank_ok {
            let v: u64 = crate::board::rank_char_exec(cr) * 8 + crate::board::file_char_exec(
                cf,
            );
            assert(v < 64);
            let m = 1u64 << v;
            assert(m == sq_bb(v) && single_bit(m));
            return Ok(m);
        }
    }
    Err(FormatError::BadEnPassant)
}

proof fn lemma_dec_val_ge(s: Seq<char>, acc: nat)
    ensures
        dec_val(s, acc) matches Some(v) ==> v >= acc,
    decreases s.len(),
{
    if s.len() > 0 && is_digit(s[0]) {
        lemma_dec_val_ge(s.drop_first(), (acc * 10 + digit_val(s[0])) as nat);
    }
}

fn digit_val_exec(c: char) -> (d: u64)
    ensures
        is_digit(c) ==> d == digit_val(c),
        !is_digit(c) ==> d == 10,
        d <= 10,
{
    if c == '0' {
        0
    } else if c == '1' {
        1
    } else if c == '2' {
        2
    } else if c == '3' {
        3
    } else if c == '4' {
        4
    } else if c == '5' {
        5
    } else if c == '6' {
        6
    } else if c == '7' {
        7
    } else if c == '8' {
        8
    } else if c == '9' {
        9
    } else {
        10
    }
}

fn parse_clock_exec(t: &Vec<char>) -> (r: Result<u32, FormatError>)
    ensures
        r == parse_clock(t@),
{
    let mut acc: u64 = 0;
    let mut i: usize = 0;
    let n = t.len();
    proof {
        assert(t@.skip(0) =~= t@);
    }
    while i < n
        invariant
            i <= n,
            n == t@.len(),
            acc <= u32::MAX,
            dec_val(t@, 0) == dec_val(t@.skip(i as int), acc as nat),
        decreases n - i,
    {
        let c = t[i];
        proof {
            assert(t@.skip(i as int)[0] == t@[i as int]);
            assert(t@.skip(i as int).drop_first() =~= t@.skip(i as int + 1));
        }
        let d = digit_val_exec(c);
        if d == 10 {
            return Err(FormatError::BadClock);
        }
        let acc2: u64 = acc * 10 + d;
        proof {
            if acc2 > u32::MAX {
                lemma_dec_val_ge(t@.skip(i as int + 1), acc2 as nat);
            }
        }
        if acc2 > 0xffff_ffffu64 {
            return Err(FormatError::BadClock);
        }
        acc = acc2;
        i = i + 1;
    }
    proof {
        assert(t@.skip(n as int) =~= Seq::<char>::empty());
    }
    Ok(acc as u32)
}

impl Board {
    /// Decodes a six-field position description; fails with the reason on
    /// malformed input, and on success the decoded position satisfies the
    /// position invariant.
    pub fn new(fen: &str) -> (r: Result<Board, FormatError>)
        ensures
            r == parse_fen(fen@),
            r matches Ok(b) ==> wf(b),
    {
        let toks = tokenize(fen);
        if toks.len() != 6 {
            return Err(FormatError::WrongFieldCount);
        }
        proof {
            assert(views_of(toks@)[0] == toks@[0]@);
            assert(views_of(toks@)[1] == toks@[1]@);
            assert(views_of(toks@)[2] == toks@[2]@);
            assert(views_of(toks@)[3] == toks@[3]@);
            assert(views_of(toks@)[4] == toks@[4]@);
            assert(views_of(toks@)[5] == toks@[5]@);
        }
        let scanned = match scan_layout_exec(&toks[0]) {
            Ok(b) => b,
            Err(e) => {
                return Err(e);
            },
        };
        let side = match parse_side_exec(&toks[1]) {
            Ok(w) => w,
            Err(e) => {
                return Err(e);
            },
        };
        let cf = match parse_castle_exec(&toks[2]) {
            Ok(f) => f,
            Err(e) => {
                return Err(e);
            },
        };
        let ep = match parse_ep_exec(&toks[3]) {
            Ok(v) => v,
            Err(e) => {
                return Err(e);
            },
        };
        let hm = match parse_clock_exec(&toks[4]) {
            Ok(v) => v,
            Err(e) => {
                return Err(e);
            },
        };
        let fm = match parse_clock_exec(&toks[5]) {
            Ok(v) => v,
            Err(e) => {
                return Err(e);
            },
        };
        let out = Board {
            is_w_move: side,
            is_w_castle: cf.0,
            is_w_q_castle: cf.1,
            is_b_castle: cf.2,
            is_b_q_castle: cf.3,
            en_passant: ep,
            halfmove_clock: hm,
            fullmove_clock: fm,
            ..scanned
        };
        proof {
            assert forall|k: int| 0 <= k < 12 implies #[trigger] nth_bb(out, k) == nth_bb(
                scanned,
                k,
            ) by {}
        }
        Ok(out)
    }
}


proof fn lemma_scan_append(b: Board, row: int, col: int, s1: Seq<char>, s2: Seq<char>)
    ensures
        scan_layout(b, row, col, s1 + s2) == (match scan_layout(b, row, col, s1) {
            Ok(st) => scan_layout(st.0, st.1, st.2, s2),
            Err(e) => Err(e),
        }),
    decreases s1.len(),
{
    if s1.len() == 0 {
        assert(s1 + s2 =~= s2);
    } else {
        assert((s1 + s2)[0] == s1[0]);
        assert((s1 + s2).drop_first() =~= s1.drop_first() + s2);
        match layout_step(b, row, col, s1[0]) {
            Ok(st) => {
                lemma_scan_append(st.0, st.1, st.2, s1.drop_first(), s2);
            },
            Err(e) => {},
        }
    }
}

/// `acc` holds exactly `b`'s pieces on the squares already scanned: those on
/// ranks above `row`, and those on `row` left of file `col`.
spec fn agrees_to(acc: Board, b: Board, row: int, col: int) -> bool {
    forall|k: int, i: u64|
        0 <= k < 12 && i < 64 ==> (#[trigger] bit(nth_bb(acc, k), i) <==> bit(nth_bb(b, k), i) && (
        i as int / 8 > row || (i as int / 8 == row && i as int % 8 < col)))
}

#[verifier::rlimit(80)]
proof fn lemma_scan_enc_rank(acc: Board, b: Board, row: int, col: int, gap: int)
    requires
        bbs_disjoint(b),
        0 <= row <= 7,
        0 <= gap <= col <= 8,
        agrees_to(acc, b, row, col - gap),
        forall|j: int|
            col - gap <= j < col ==> crate::board::piece_idx_at(b, #[trigger] ((row * 8 + j)
                as u64)) == 12,
    ensures
        (match scan_layout(acc, row, col - gap, enc_rank(b, row, col, gap)) {
            Ok(st) => st.1 == row && st.2 == 8 && agrees_to(st.0, b, row, 8),
            Err(e) => false,
        }),
    decreases 8 - col,
{
    if col >= 8 {
        // only a pending digit (or nothing) remains; the scanned region
        // grows over the empty run
        assert forall|k: int, i: u64|
            0 <= k < 12 && i < 64 implies (#[trigger] bit(nth_bb(acc, k), i) <==> bit(
            nth_bb(b, k),
            i,
        ) && (i as int / 8 > row || (i as int / 8 == row && i as int % 8 < 8))) by {
            vstd::arithmetic::div_mod::lemma_fundamental_div_mod(i as int, 8);
            if i as int / 8 == row && col - gap <= i as int % 8 < col {
                assert((row * 8 + (i as int % 8)) as u64 == i);
                assert(crate::board::piece_idx_at(b, i) == 12);
            }
        }
        assert(agrees_to(acc, b, row, 8));
        if gap > 0 {
            let g = gap_char(gap);
            assert(seq![g].drop_first() =~= Seq::<char>::empty());
            assert(enc_rank(b, row, col, gap) == seq![g]);
            assert(seq![g][0] == g);
            assert(layout_step(acc, row, col - gap, g) == Ok::<(Board, int, int), FormatError>(
                (acc, row, 8),
            ));
            assert(scan_layout(acc, row, col - gap, seq![g]) == scan_layout(
                acc,
                row,
                8,
                seq![g].drop_first(),
            ));
            assert(scan_layout(acc, row, 8, seq![g].drop_first()) == Ok::<
                (Board, int, int),
                FormatError,
            >((acc, row, 8)));
        } else {
            assert(enc_rank(b, row, col, gap) == Seq::<char>::empty());
            assert(scan_layout(acc, row, col - gap, Seq::<char>::empty()) == Ok::<
                (Board, int, int),
                FormatError,
            >((acc, row, 8)));
        }
    } else {
        let sq = (row * 8 + col) as u64;
        lemma_fundamental_div_mod_converse(sq as int, 8, row, col);
        let k = crate::board::piece_idx_at(b, sq);
        if k == 12 {
            lemma_scan_enc_rank(acc, b, row, col + 1, gap + 1);
        } else {
            let pre: Seq<char> = if gap > 0 {
                seq![gap_char(gap), idx_char(k)]
            } else {
                seq![idx_char(k)]
            };
            let rest = enc_rank(b, row, col + 1, 0);
            assert(enc_rank(b, row, col, gap) == pre + rest);
            lemma_scan_append(acc, row, col - gap, pre, rest);
            let acc2 = with_bb_or(acc, k, sq_bb(sq));
            if gap > 0 {
                assert(pre.drop_first() =~= seq![idx_char(k)]);
                assert(pre.drop_first().drop_first() =~= Seq::<char>::empty());
            } else {
                assert(pre.drop_first() =~= Seq::<char>::empty());
            }
            if gap > 0 {
                assert(pre[0] == gap_char(gap));
                assert(layout_step(acc, row, col - gap, gap_char(gap)) == Ok::<
                    (Board, int, int),
                    FormatError,
                >((acc, row, col)));
                assert(scan_layout(acc, row, col - gap, pre) == scan_layout(
                    acc,
                    row,
                    col,
                    pre.drop_first(),
                ));
                assert(pre.drop_first()[0] == idx_char(k));
            } else {
                assert(pre[0] == idx_char(k));
            }
            assert(layout_step(acc, row, col, idx_char(k)) == Ok::<(Board, int, int), FormatError>(
                (acc2, row, col + 1),
            ));
            if gap > 0 {
                assert(scan_layout(acc, row, col, pre.drop_first()) == scan_layout(
                    acc2,
                    row,
                    col + 1,
                    pre.drop_first().drop_first(),
                ));
                assert(scan_layout(acc2, row, col + 1, pre.drop_first().drop_first()) == Ok::<
                    (Board, int, int),
                    FormatError,
                >((acc2, row, col + 1)));
            } else {
                assert(scan_layout(acc, row, col - gap, pre) == scan_layout(
                    acc2,
                    row,
                    col + 1,
                    pre.drop_first(),
                ));
                assert(scan_layout(acc2, row, col + 1, pre.drop_first()) == Ok::<
                    (Board, int, int),
                    FormatError,
                >((acc2, row, col + 1)));
            }
            assert(scan_layout(acc, row, col - gap, pre) == Ok::<(Board, int, int), FormatError>(
                (acc2, row, col + 1),
            ));
            // the new square carries exactly b's piece there
            assert(bit(nth_bb(b, k), sq));
            assert forall|k2: int| 0 <= k2 < 12 && k2 != k implies !bit(
                #[trigger] nth_bb(b, k2),
                sq,
            ) by {
                if k2 > k {
                    lemma_disjoint_bit(nth_bb(b, k), nth_bb(b, k2), sq);
                }
            }
            assert forall|k2: int| 0 <= k2 < 12 implies #[trigger] nth_bb(acc2, k2) == (if k2 == k {
                nth_bb(acc, k2) | sq_bb(sq)
            } else {
                nth_bb(acc, k2)
            }) by {}
            assert forall|k2: int, i: u64|
                0 <= k2 < 12 && i < 64 implies (#[trigger] bit(nth_bb(acc2, k2), i) <==> bit(
                nth_bb(b, k2),
                i,
            ) && (i as int / 8 > row || (i as int / 8 == row && i as int % 8 < col + 1))) by {
                vstd::arithmetic::div_mod::lemma_fundamental_div_mod(i as int, 8);
                if k2 == k {
                    lemma_bit_or(nth_bb(acc, k2), sq, i);
                }
                if i as int / 8 == row && i as int % 8 == col {
                    assert(i == sq);
                }
                assert(bit(nth_bb(acc, k2), i) <==> bit(nth_bb(b, k2), i) && (i as int / 8 > row
                    || (i as int / 8 == row && i as int % 8 < col - gap)));
                if i as int / 8 == row && col - gap <= i as int % 8 < col {
                    assert((row * 8 + (i as int % 8)) as u64 == i);
                    assert(crate::board::piece_idx_at(b, i) == 12);
                    assert(!bit(nth_bb(b, k2), i));
                }
            }
            assert(agrees_to(acc2, b, row, col + 1));
            lemma_scan_enc_rank(acc2, b, row, col + 1, 0);
        }
    }
}

proof fn lemma_scan_rows(acc: Board, b: Board, row: int)
    requires
        bbs_disjoint(b),
        0 <= row <= 7,
        agrees_to(acc, b, row, 0),
    ensures
        (match scan_layout(acc, row, 0, enc_rank(b, row, 0, 0) + rows_tail(b, row)) {
            Ok(st) => st.1 == 0 && st.2 == 8 && agrees_to(st.0, b, 0, 8),
            Err(e) => false,
        }),
    decreases row,
{
    lemma_scan_append(acc, row, 0, enc_rank(b, row, 0, 0), rows_tail(b, row));
    lemma_scan_enc_rank(acc, b, row, 0, 0);
    match scan_layout(acc, row, 0, enc_rank(b, row, 0, 0)) {
        Ok(st) => {
            if row > 0 {
                let lower = enc_rank(b, row - 1, 0, 0) + rows_tail(b, row - 1);
                assert(rows_tail(b, row) =~= seq!['/'] + lower);
                lemma_scan_append(st.0, row, 8, seq!['/'], lower);
                assert(seq!['/'].drop_first() =~= Seq::<char>::empty());
                assert(layout_step(st.0, row, 8, '/') == Ok::<(Board, int, int), FormatError>(
                    (st.0, row - 1, 0),
                ));
                assert(scan_layout(st.0, row, 8, seq!['/']) == scan_layout(
                    st.0,
                    row - 1,
                    0,
                    seq!['/'].drop_first(),
                ));
                assert(scan_layout(st.0, row, 8, seq!['/']) == Ok::<
                    (Board, int, int),
                    FormatError,
                >((st.0, row - 1, 0)));
                assert forall|k: int, i: u64|
                    0 <= k < 12 && i < 64 implies (#[trigger] bit(nth_bb(st.0, k), i) <==> bit(
                    nth_bb(b, k),
                    i,
                ) && (i as int / 8 > row - 1 || (i as int / 8 == row - 1 && i as int % 8 < 0))) by {
                    vstd::arithmetic::div_mod::lemma_fundamental_div_mod(i as int, 8);
                }
                assert(agrees_to(st.0, b, row - 1, 0));
                lemma_scan_rows(st.0, b, row - 1);
            } else {
                assert(rows_tail(b, 0) == Seq::<char>::empty());
            }
        },
        Err(e) => {
            assert(false);
        },
    }
}

/// Decode stability, stated from the board side: scanning the re-derived
/// board-layout field of any position with disjoint piece boards reproduces
/// exactly its twelve bit-sets. Together with `Board::new`'s exact contract
/// this pins the layout round trip.
pub proof fn lemma_layout_round_trip(b: Board)
    requires
        bbs_disjoint(b),
    ensures
        (match scan_layout(empty_board(), 7, 0, encode_layout(b)) {
            Ok(st) => st.1 == 0 && st.2 == 8 && forall|k: int|
                0 <= k < 12 ==> #[trigger] nth_bb(st.0, k) == nth_bb(b, k),
            Err(e) => false,
        }),
{
    let e = empty_board();
    assert forall|k: int, i: u64|
        0 <= k < 12 && i < 64 implies (#[trigger] bit(nth_bb(e, k), i) <==> bit(nth_bb(b, k), i)
        && (i as int / 8 > 7 || (i as int / 8 == 7 && i as int % 8 < 0))) by {
        crate::bits::lemma_bit_zero(i);
        vstd::arithmetic::div_mod::lemma_fundamental_div_mod(i as int, 8);
    }
    assert(agrees_to(e, b, 7, 0));
    lemma_scan_rows(e, b, 7);
    match scan_layout(e, 7, 0, encode_layout(b)) {
        Ok(st) => {
            assert forall|k: int| 0 <= k < 12 implies #[trigger] nth_bb(st.0, k) == nth_bb(
                b,
                k,
            ) by {
                assert forall|i: u64| i < 64 implies bit(nth_bb(st.0, k), i) == bit(
                    nth_bb(b, k),
                    i,
                ) by {
                    vstd::arithmetic::div_mod::lemma_fundamental_div_mod(i as int, 8);
                }
                crate::bits::lemma_bits_eq(nth_bb(st.0, k), nth_bb(b, k));
            }
        },
        Err(e2) => {
            assert(false);
        },
    }
}

} // verus!
