use chess_core::board::Board;
use chess_core::eval::{evaluate, eval_ending, Ending};
use chess_core::move_gen::{solo_knight_moves, solo_rook_moves, solo_bishop_moves, solo_queen_moves};

#[test]
fn knight_on_corner_has_exactly_two_destinations() {
    // knight alone on a1: only b3 and c2 survive the edge clipping
    let bb = 1u64 << 0;
    let m = solo_knight_moves(bb, bb);
    assert_eq!(m, (1u64 << 17) | (1u64 << 10));
    assert_eq!(m.count_ones(), 2);
}

#[test]
fn knight_moves_exclude_own_pieces() {
    let bb = 1u64 << 0;
    let allies = bb | (1u64 << 17); // own piece on b3
    let m = solo_knight_moves(bb, allies);
    assert_eq!(m, 1u64 << 10);
}

#[test]
fn rook_ray_stops_before_own_blocker() {
    // rook on a1, own blocker on a4: the file ray stops one square short of
    // the blocker; the rank ray is unaffected
    let rook = 1u64 << 0;
    let allies = rook | (1u64 << 24);
    let m = solo_rook_moves(rook, allies, allies);
    let file_ray = (1u64 << 8) | (1u64 << 16); // a2, a3
    let rank_ray = 0xFEu64; // b1..h1
    assert_eq!(m, file_ray | rank_ray);
}

#[test]
fn rook_ray_includes_first_enemy_piece() {
    let rook = 1u64 << 0;
    let enemy = 1u64 << 24; // enemy on a4
    let m = solo_rook_moves(rook, rook, rook | enemy);
    let file_ray = (1u64 << 8) | (1u64 << 16) | (1u64 << 24); // a2, a3, a4
    assert_eq!(m, file_ray | 0xFEu64);
}

#[test]
fn bishop_on_center_square() {
    let bishop = 1u64 << 27; // d4
    let m = solo_bishop_moves(bishop, bishop, bishop);
    assert_eq!(m.count_ones(), 13);
}

#[test]
fn queen_is_union_of_bishop_and_rook_rays() {
    let q = 1u64 << 27;
    let m = solo_queen_moves(q, q, q);
    assert_eq!(m, solo_bishop_moves(q, q, q) | solo_rook_moves(q, q, q));
    assert_eq!(m.count_ones(), 27);
}

#[test]
fn fifty_move_clock_reports_draw_regardless_of_material() {
    // heavy material imbalance, clock at the threshold
    let b = Board::new("8/8/8/8/8/8/QQQQQQQQ/QQQQKQQQ w - - 50 80").unwrap();
    assert_eq!(eval_ending(&b), Some(Ending::Draw));
    let (end, score) = evaluate(&b);
    assert_eq!(end, Some(Ending::Draw));
    assert!(score > 0);
    let fresh = Board::new("8/8/8/8/8/8/QQQQQQQQ/QQQQKQQQ w - - 49 80").unwrap();
    assert_eq!(eval_ending(&fresh), None);
    assert_eq!(evaluate(&fresh).0, None);
}

#[test]
fn lone_knight_exact_score() {
    // knight material (300 cp) plus two destinations at 10 cp each,
    // in forty-eighths of a centipawn
    let b = Board::new("8/8/8/8/8/8/8/N7 w - - 0 1").unwrap();
    let (_, score) = evaluate(&b);
    assert_eq!(score, 300 * 48 + 2 * 10 * 48);
}

#[test]
fn lone_pawn_exact_score() {
    // pawn on its home rank: 100 cp material plus the rank-1 advancement
    // bonus of 100/48 cp
    let b = Board::new("8/8/8/8/8/8/P7/8 w - - 0 1").unwrap();
    let (_, score) = evaluate(&b);
    assert_eq!(score, 100 * 48 + 100);
    // advanced to the seventh rank the bonus grows quadratically
    let b2 = Board::new("P7/8/8/8/8/8/8/8 w - - 0 1").unwrap();
    assert_eq!(evaluate(&b2).1, 100 * 48 + 100 * 49);
}

#[test]
fn second_color_pieces_score_negative() {
    let b = Board::new("8/8/8/8/8/8/8/n7 w - - 0 1").unwrap();
    assert_eq!(evaluate(&b).1, -(300 * 48 + 2 * 10 * 48));
}

#[test]
fn mirrored_position_scores_negated() {
    let mut b = Board::new("rnbqkbnr/pppppppp/8/8/8/8/PPPPPPPP/RNBQKBNR w KQkq - 0 1").unwrap();
    b.do_move("e2e4").unwrap();
    b.do_move("g8f6").unwrap();
    let m = b.mirror();
    assert_eq!(evaluate(&m).1, -evaluate(&b).1);
    // and on a lopsided position
    let c = Board::new("8/8/8/3q4/8/2N5/PP6/4K3 w - - 3 20").unwrap();
    assert_eq!(evaluate(&c.mirror()).1, -evaluate(&c).1);
}

#[test]
fn balanced_start_scores_zero() {
    let b = Board::new("rnbqkbnr/pppppppp/8/8/8/8/PPPPPPPP/RNBQKBNR w KQkq - 0 1").unwrap();
    assert_eq!(evaluate(&b).1, 0);
}
