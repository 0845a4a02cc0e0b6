use chess_core::board::{Board, FormatError, IllegalMoveError};

const START: &str = "rnbqkbnr/pppppppp/8/8/8/8/PPPPPPPP/RNBQKBNR w KQkq - 0 1";

#[test]
fn decode_start_position() {
    let b = Board::new(START).unwrap();
    assert_eq!(b.w_p_bb, 0xFF00);
    assert_eq!(b.w_n_bb, 0x42);
    assert_eq!(b.w_b_bb, 0x24);
    assert_eq!(b.w_r_bb, 0x81);
    assert_eq!(b.w_q_bb, 0x08);
    assert_eq!(b.w_k_bb, 0x10);
    assert_eq!(b.b_p_bb, 0x00FF_0000_0000_0000);
    assert_eq!(b.b_n_bb, 0x4200_0000_0000_0000);
    assert_eq!(b.b_b_bb, 0x2400_0000_0000_0000);
    assert_eq!(b.b_r_bb, 0x8100_0000_0000_0000);
    assert_eq!(b.b_q_bb, 0x0800_0000_0000_0000);
    assert_eq!(b.b_k_bb, 0x1000_0000_0000_0000);
    assert!(b.is_w_move);
    assert!(b.is_w_castle && b.is_w_q_castle && b.is_b_castle && b.is_b_q_castle);
    assert_eq!(b.en_passant, 0);
    assert_eq!(b.halfmove_clock, 0);
    assert_eq!(b.fullmove_clock, 1);
}

#[test]
fn decode_is_deterministic_and_ws_insensitive() {
    let a = Board::new(START).unwrap();
    let b = Board::new("rnbqkbnr/pppppppp/8/8/8/8/PPPPPPPP/RNBQKBNR   w\tKQkq  -  0 1").unwrap();
    assert!(a == b);
}

#[test]
fn decode_rederives_board_layout() {
    // Re-deriving the layout field from the twelve bit-sets reproduces the
    // field that was decoded.
    let b = Board::new(START).unwrap();
    let out: String = b.layout_chars().into_iter().collect();
    assert_eq!(out, "rnbqkbnr/pppppppp/8/8/8/8/PPPPPPPP/RNBQKBNR");
}

#[test]
fn layout_rederivation_after_moves() {
    let mut b = Board::new(START).unwrap();
    b.do_move("e2e4").unwrap();
    b.do_move("d7d5").unwrap();
    b.do_move("e4d5").unwrap();
    let out: String = b.layout_chars().into_iter().collect();
    assert_eq!(out, "rnbqkbnr/ppp1pppp/8/3P4/8/8/PPPP1PPP/RNBQKBNR");
    let again = Board::new(&format!("{} b - - 0 3", out)).unwrap();
    assert_eq!(again.w_p_bb, b.w_p_bb);
    assert_eq!(again.b_p_bb, b.b_p_bb);
    assert_eq!(again.w_k_bb, b.w_k_bb);
    assert_eq!(again.b_k_bb, b.b_k_bb);
}

#[test]
fn decode_accepts_no_rights_sentinel() {
    let b = Board::new("8/8/8/8/8/8/8/8 b - - 12 34").unwrap();
    assert!(!b.is_w_move);
    assert!(!b.is_w_castle && !b.is_w_q_castle && !b.is_b_castle && !b.is_b_q_castle);
    assert_eq!(b.halfmove_clock, 12);
    assert_eq!(b.fullmove_clock, 34);
}

#[test]
fn decode_en_passant_square() {
    let b = Board::new("8/8/8/8/8/8/8/8 w - e3 0 1").unwrap();
    assert_eq!(b.en_passant, 1u64 << 20);
}

#[test]
fn decode_wrong_field_count() {
    assert_eq!(Board::new("8/8/8/8/8/8/8/8 w - - 0").unwrap_err(), FormatError::WrongFieldCount);
    assert_eq!(Board::new("").unwrap_err(), FormatError::WrongFieldCount);
}

#[test]
fn decode_bad_board_char() {
    assert_eq!(
        Board::new("8/8/8/8/8/8/8/x7 w - - 0 1").unwrap_err(),
        FormatError::BadBoardChar
    );
}

#[test]
fn decode_bad_board_shape() {
    // nine entries in one rank
    assert_eq!(
        Board::new("ppppppppp/8/8/8/8/8/8/8 w - - 0 1").unwrap_err(),
        FormatError::BadBoardShape
    );
    // too many ranks
    assert_eq!(
        Board::new("8/8/8/8/8/8/8/8/8 w - - 0 1").unwrap_err(),
        FormatError::BadBoardShape
    );
}

#[test]
fn decode_bad_side_token() {
    assert_eq!(Board::new("8/8/8/8/8/8/8/8 x - - 0 1").unwrap_err(), FormatError::BadSideToken);
}

#[test]
fn decode_bad_castling_char() {
    assert_eq!(Board::new("8/8/8/8/8/8/8/8 w X - 0 1").unwrap_err(), FormatError::BadCastlingChar);
}

#[test]
fn decode_bad_en_passant() {
    assert_eq!(Board::new("8/8/8/8/8/8/8/8 w - e9 0 1").unwrap_err(), FormatError::BadEnPassant);
    assert_eq!(Board::new("8/8/8/8/8/8/8/8 w - xyz 0 1").unwrap_err(), FormatError::BadEnPassant);
}

#[test]
fn decode_bad_clock() {
    assert_eq!(Board::new("8/8/8/8/8/8/8/8 w - - x 1").unwrap_err(), FormatError::BadClock);
    assert_eq!(Board::new("8/8/8/8/8/8/8/8 w - - 0 99999999999").unwrap_err(), FormatError::BadClock);
}

#[test]
fn double_push_sets_en_passant_and_clocks() {
    // starting position, pawn e2 to e4
    let mut b = Board::new(START).unwrap();
    b.do_move("e2e4").unwrap();
    assert!(!b.is_w_move);
    assert_eq!(b.halfmove_clock, 0);
    assert_eq!(b.en_passant, 1u64 << 20); // the square passed over: e3
    assert_eq!(b.fullmove_clock, 1); // increments only after the second color's ply
    assert_eq!(b.w_p_bb, (0xFF00 & !(1u64 << 12)) | (1u64 << 28));
    // the second color's reply completes the pair
    b.do_move("e7e5").unwrap();
    assert!(b.is_w_move);
    assert_eq!(b.en_passant, 1u64 << 44); // e6
    assert_eq!(b.fullmove_clock, 2);
}

#[test]
fn non_double_push_clears_en_passant() {
    let mut b = Board::new(START).unwrap();
    b.do_move("e2e4").unwrap();
    assert_ne!(b.en_passant, 0);
    b.do_move("g8f6").unwrap();
    assert_eq!(b.en_passant, 0);
}

#[test]
fn quiet_move_increments_halfmove_clock() {
    let mut b = Board::new("8/8/8/8/8/8/8/N7 w - - 7 1").unwrap();
    b.do_move("a1b3").unwrap();
    assert_eq!(b.halfmove_clock, 8);
}

#[test]
fn capture_resets_halfmove_clock_and_removes_piece() {
    let mut b = Board::new("8/8/8/8/8/2n5/8/N7 w - - 7 9").unwrap();
    b.do_move("a1c3").unwrap(); // knight takes knight
    assert_eq!(b.halfmove_clock, 0);
    assert_eq!(b.b_n_bb, 0);
    assert_eq!(b.w_n_bb, 1u64 << 18);
}

#[test]
fn kingside_castle_moves_rook_and_clears_both_flags() {
    // only the queen-side flag is set beforehand; both end up cleared
    let mut b = Board::new("8/8/8/8/8/8/8/R3K2R w Q - 0 1").unwrap();
    b.do_move("e1g1").unwrap();
    assert_eq!(b.w_k_bb, 1u64 << 6);
    assert_eq!(b.w_r_bb, (1u64 << 0) | (1u64 << 5)); // h1 rook now on f1
    assert!(!b.is_w_castle && !b.is_w_q_castle);
}

#[test]
fn queenside_castle_second_color() {
    let mut b = Board::new("r3k2r/8/8/8/8/8/8/8 b kq - 0 1").unwrap();
    b.do_move("e8c8").unwrap();
    assert_eq!(b.b_k_bb, 1u64 << 58);
    assert_eq!(b.b_r_bb, (1u64 << 63) | (1u64 << 59)); // a8 rook now on d8
    assert!(!b.is_b_castle && !b.is_b_q_castle);
}

#[test]
fn promotion_replaces_pawn_with_named_piece() {
    let mut b = Board::new("8/P7/8/8/8/8/8/8 w - - 0 1").unwrap();
    b.do_move("a7a8q").unwrap();
    assert_eq!(b.w_p_bb, 0);
    assert_eq!(b.w_q_bb, 1u64 << 56);
    assert_eq!(b.halfmove_clock, 0); // a pawn move
}

#[test]
fn move_from_empty_square_is_rejected() {
    let mut b = Board::new(START).unwrap();
    let before = b;
    assert_eq!(b.do_move("e4e5").unwrap_err(), IllegalMoveError::NoPieceAtOrigin);
    assert!(b == before);
}

#[test]
fn unrecognized_promotion_tag_is_rejected() {
    let mut b = Board::new("8/P7/8/8/8/8/8/8 w - - 0 1").unwrap();
    let before = b;
    assert_eq!(b.do_move("a7a8x").unwrap_err(), IllegalMoveError::BadPromotion);
    assert!(b == before);
}

#[test]
fn mirror_is_involutive() {
    let mut b = Board::new(START).unwrap();
    b.do_move("e2e4").unwrap();
    assert!(b.mirror().mirror() == b);
}

#[test]
fn promotion_color_follows_the_mover_not_the_letter_case() {
    // a second-color pawn promoting with an upper-case tag still yields a
    // second-color piece
    let mut b = Board::new("8/8/8/8/8/8/p7/8 b - - 0 9").unwrap();
    b.do_move("a2a1N").unwrap();
    assert_eq!(b.b_p_bb, 0);
    assert_eq!(b.b_n_bb, 1u64 << 0);
    assert_eq!(b.w_n_bb, 0);
    assert_eq!(b.fullmove_clock, 10); // the second color completed the pair
}

#[test]
fn moving_out_of_turn_still_flips_side_to_move() {
    // the transition applies one ply with no turn legality checking
    let mut b = Board::new("8/8/8/8/8/8/8/N7 b - - 0 1").unwrap();
    b.do_move("a1b3").unwrap();
    assert!(b.is_w_move);
}

#[test]
fn move_string_syntax_check() {
    assert!(chess_core::board::is_move_string("e2e4"));
    assert!(chess_core::board::is_move_string("a7a8q"));
    assert!(!chess_core::board::is_move_string("e2"));
    assert!(!chess_core::board::is_move_string("i2e4"));
    assert!(!chess_core::board::is_move_string("e9e4"));
    assert!(!chess_core::board::is_move_string("e2e4qq"));
}
