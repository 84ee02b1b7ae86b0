use fen_board::board::Board;
use fen_board::error::ParseError;
use fen_board::piece::PieceKind;
use fen_board::piece::Side;

fn decode(fen: &str) -> Result<Board, ParseError> {
    Board::parse_fen(&String::from(fen))
}

const START: &str = "rnbqkbnr/pppppppp/8/8/8/8/PPPPPPPP/RNBQKBNR w KQkq - 0 1";

#[test]
fn start_position_side_to_move() {
    let b = decode(START).unwrap();
    assert_eq!(b.side_to_move, Side::White);
}

#[test]
fn start_position_castling_rights() {
    let b = decode(START).unwrap();
    assert_eq!(b.castling_rights, "KQkq".to_string());
}

#[test]
fn start_position_en_passant_target() {
    let b = decode(START).unwrap();
    assert_eq!(b.en_passant_target, None);
}

#[test]
fn start_position_clocks() {
    let b = decode(START).unwrap();
    assert_eq!(b.half_move_clock, 0);
    assert_eq!(b.full_move_clock, 1);
}

#[test]
fn start_position_has_sixteen_pawns() {
    let b = decode(START).unwrap();
    let white = b.piece_mask(PieceKind::WhitePawn);
    let black = b.piece_mask(PieceKind::BlackPawn);
    assert_eq!(white.count_ones() + black.count_ones(), 16);
}

#[test]
fn start_position_piece_masks() {
    let b = decode(START).unwrap();
    // Rank 2 holds the White pawns: bits 8 through 15.
    assert_eq!(b.piece_mask(PieceKind::WhitePawn), 0xff00u64);
    // Rank 7 holds the Black pawns: bits 48 through 55.
    assert_eq!(b.piece_mask(PieceKind::BlackPawn), 0x00ff_0000_0000_0000u64);
    // The White king stands on e1: bit 3.
    assert_eq!(b.piece_mask(PieceKind::WhiteKing), 1u64 << 3);
    // The Black queen stands on d8: bit 60.
    assert_eq!(b.piece_mask(PieceKind::BlackQueen), 1u64 << 60);
}

#[test]
fn en_passant_square_e6() {
    let b = decode("rnbqkbnr/1ppp1ppp/p7/3Pp3/8/8/PPP1PPPP/RNBQKBNR w KQkq e6 0 3").unwrap();
    assert_eq!(b.en_passant_target, Some(1u64 << ((5 * 8) + 3)));
    assert_eq!(b.full_move_clock, 3);
}

#[test]
fn empty_board_has_empty_masks() {
    let b = decode("8/8/8/8/8/8/8/8 w - - 0 1").unwrap();
    assert_eq!(b.occupancy, [0u64; 12]);
}

#[test]
fn no_castling_rights_position() {
    let b = decode("rnbq1bnr/1pppkppp/p7/3Pp3/8/3Q4/PPP1PPPP/RNBK1BNR b - - 3 4").unwrap();
    assert_eq!(b.side_to_move, Side::Black);
    assert_eq!(b.castling_rights, "-".to_string());
    assert_eq!(b.en_passant_target, None);
    assert_eq!(b.half_move_clock, 3);
    assert_eq!(b.full_move_clock, 4);
}

#[test]
fn extra_whitespace_between_fields_is_accepted() {
    let b = decode("  8/8/8/8/8/8/8/8 \t w \n -   -  10  42  ").unwrap();
    assert_eq!(b.half_move_clock, 10);
    assert_eq!(b.full_move_clock, 42);
}

#[test]
fn empty_input_is_missing_fields() {
    let r = decode("");
    assert!(matches!(r, Err(ParseError::MissingFields(t)) if t.is_empty()));
}

#[test]
fn five_fields_are_missing_fields() {
    let r = decode("8/8/8/8/8/8/8/8 w - - 0");
    assert!(matches!(r, Err(ParseError::MissingFields(_))));
}

#[test]
fn seven_fields_are_missing_fields() {
    let r = decode("8/8/8/8/8/8/8/8 w - - 0 1 extra");
    assert!(matches!(r, Err(ParseError::MissingFields(_))));
}

#[test]
fn invalid_side_to_move_x() {
    let r = decode("rnbqkbnr/pppppppp/8/8/8/8/PPPPPPPP/RNBQKBNR x KQkq - 0 1");
    assert!(matches!(r, Err(ParseError::InvalidSideToMove(t)) if t == "x"));
}

#[test]
fn short_rank_is_malformed() {
    let r = decode("ppppppp/8/8/8/8/8/8/8 w - - 0 1");
    assert!(matches!(r, Err(ParseError::MalformedRank(_))));
}

#[test]
fn long_rank_is_malformed() {
    let r = decode("ppppppppp/8/8/8/8/8/8/8 w - - 0 1");
    assert!(matches!(r, Err(ParseError::MalformedRank(_))));
}

#[test]
fn digits_overrunning_a_rank_are_malformed() {
    let r = decode("45/8/8/8/8/8/8/8 w - - 0 1");
    assert!(matches!(r, Err(ParseError::MalformedRank(_))));
}

#[test]
fn digits_filling_a_rank_are_accepted() {
    let b = decode("44/8/8/8/8/8/8/8 w - - 0 1").unwrap();
    assert_eq!(b.occupancy, [0u64; 12]);
}

#[test]
fn nine_ranks_are_malformed() {
    let r = decode("8/8/8/8/8/8/8/8/8 w - - 0 1");
    assert!(matches!(r, Err(ParseError::MalformedRank(_))));
}

#[test]
fn seven_ranks_are_malformed() {
    let r = decode("8/8/8/8/8/8/8 w - - 0 1");
    assert!(matches!(r, Err(ParseError::MalformedRank(_))));
}

#[test]
fn trailing_rank_separator_is_malformed() {
    let r = decode("8/8/8/8/8/8/8/8/ w - - 0 1");
    assert!(matches!(r, Err(ParseError::MalformedRank(_))));
}

#[test]
fn unknown_placement_character_is_rejected() {
    let r = decode("xnbqkbnr/pppppppp/8/8/8/8/PPPPPPPP/RNBQKBNR w KQkq - 0 1");
    assert!(matches!(r, Err(ParseError::InvalidPieceChar(_))));
}

#[test]
fn nine_is_no_placement_digit() {
    let r = decode("9/8/8/8/8/8/8/8 w - - 0 1");
    assert!(matches!(r, Err(ParseError::InvalidPieceChar(_))));
}

#[test]
fn castling_all_four_flags() {
    let b = decode("8/8/8/8/8/8/8/8 w KQkq - 0 1").unwrap();
    assert_eq!(b.castling_rights, "KQkq".to_string());
}

#[test]
fn castling_duplicate_flag_is_rejected() {
    let r = decode("8/8/8/8/8/8/8/8 w KKQ - 0 1");
    assert!(matches!(r, Err(ParseError::InvalidCastling(t)) if t == "KKQ"));
}

#[test]
fn castling_out_of_order_is_rejected() {
    let r = decode("8/8/8/8/8/8/8/8 w qkQK - 0 1");
    assert!(matches!(r, Err(ParseError::InvalidCastling(_))));
}

#[test]
fn castling_dash_means_no_rights() {
    let b = decode("8/8/8/8/8/8/8/8 w - - 0 1").unwrap();
    assert_eq!(b.castling_rights, "-".to_string());
}

#[test]
fn castling_partial_selection_is_accepted() {
    let b = decode("8/8/8/8/8/8/8/8 w Kq - 0 1").unwrap();
    assert_eq!(b.castling_rights, "Kq".to_string());
}

#[test]
fn castling_unknown_letter_is_rejected() {
    let r = decode("8/8/8/8/8/8/8/8 w KQx - 0 1");
    assert!(matches!(r, Err(ParseError::InvalidCastling(_))));
}

#[test]
fn en_passant_rank_nine_is_rejected() {
    let r = decode("8/8/8/8/8/8/8/8 w - e9 0 1");
    assert!(matches!(r, Err(ParseError::InvalidEnPassant(t)) if t == "e9"));
}

#[test]
fn en_passant_junk_is_rejected() {
    let r = decode("8/8/8/8/8/8/8/8 w - !! 0 1");
    assert!(matches!(r, Err(ParseError::InvalidEnPassant(_))));
}

#[test]
fn half_move_clock_must_be_digits() {
    let r = decode("8/8/8/8/8/8/8/8 w - - abc 1");
    assert!(matches!(r, Err(ParseError::InvalidHalfMoveClock(t)) if t == "abc"));
}

#[test]
fn negative_half_move_clock_is_rejected() {
    let r = decode("8/8/8/8/8/8/8/8 w - - -1 1");
    assert!(matches!(r, Err(ParseError::InvalidHalfMoveClock(_))));
}

#[test]
fn half_move_clock_with_leading_zeros() {
    let b = decode("8/8/8/8/8/8/8/8 w - - 007 1").unwrap();
    assert_eq!(b.half_move_clock, 7);
}

#[test]
fn oversized_half_move_clock_is_rejected() {
    let r = decode("8/8/8/8/8/8/8/8 w - - 99999999999999999999 1");
    assert!(matches!(r, Err(ParseError::InvalidHalfMoveClock(_))));
}

#[test]
fn largest_half_move_clock_is_accepted() {
    let b = decode("8/8/8/8/8/8/8/8 w - - 18446744073709551615 1").unwrap();
    assert_eq!(b.half_move_clock, u64::MAX);
}

#[test]
fn full_move_clock_zero_is_rejected() {
    let r = decode("8/8/8/8/8/8/8/8 w - - 0 0");
    assert!(matches!(r, Err(ParseError::InvalidFullMoveClock(t)) if t == "0"));
}

#[test]
fn full_move_clock_must_be_digits() {
    let r = decode("8/8/8/8/8/8/8/8 w - - 0 one");
    assert!(matches!(r, Err(ParseError::InvalidFullMoveClock(_))));
}

#[test]
fn field_checks_run_in_order() {
    // Both the placement and the side field are bad: the placement
    // field is checked first.
    let r = decode("ppppppp/8/8/8/8/8/8/8 x KQkq - 0 1");
    assert!(matches!(r, Err(ParseError::MalformedRank(_))));
}

#[test]
fn error_carries_offending_text() {
    let e = decode("8/8/8/8/8/8/8/8 w KKQ - 0 1").unwrap_err();
    assert_eq!(e.offending_text().as_str(), "KKQ");
    assert_eq!(e.message(), "invalid FEN: castling field: KKQ".to_string());
}

#[test]
fn missing_fields_message_names_the_input() {
    let e = decode("8/8 w").unwrap_err();
    assert_eq!(
        e.message(),
        "invalid FEN: expected six fields in: 8/8 w".to_string()
    );
}

#[test]
fn decoded_masks_never_overlap() {
    let b = decode("rnbqkbnr/1ppp1ppp/p7/3Pp3/8/8/PPP1PPPP/RNBQKBNR w KQkq e6 0 3").unwrap();
    let mut union: u64 = 0;
    for m in b.occupancy {
        assert_eq!(union & m, 0);
        union |= m;
    }
}
