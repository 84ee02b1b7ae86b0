use fen_board::board::Board;
use fen_board::error::ParseError;

#[test]
fn square_e4_has_bit_27() {
    assert_eq!(Board::convert_square_to_bitboard("e4").unwrap(), 134217728u64);
}

#[test]
fn square_a1_has_bit_7() {
    assert_eq!(Board::convert_square_to_bitboard("a1").unwrap(), 128u64);
}

#[test]
fn square_h8_has_bit_56() {
    assert_eq!(
        Board::convert_square_to_bitboard("h8").unwrap(),
        72057594037927936u64
    );
}

#[test]
fn square_dash_is_empty_mask() {
    assert_eq!(Board::convert_square_to_bitboard("-").unwrap(), 0u64);
}

#[test]
fn square_empty_text_is_rejected() {
    let r = Board::convert_square_to_bitboard("");
    assert!(matches!(r, Err(ParseError::InvalidSquare(t)) if t.is_empty()));
}

#[test]
fn square_z9_is_rejected() {
    let r = Board::convert_square_to_bitboard("z9");
    assert!(matches!(r, Err(ParseError::InvalidSquare(t)) if t == "z9"));
}

#[test]
fn square_a9_is_rejected() {
    assert!(matches!(
        Board::convert_square_to_bitboard("a9"),
        Err(ParseError::InvalidSquare(_))
    ));
}

#[test]
fn square_i1_is_rejected() {
    assert!(matches!(
        Board::convert_square_to_bitboard("i1"),
        Err(ParseError::InvalidSquare(_))
    ));
}

#[test]
fn square_three_characters_rejected() {
    assert!(matches!(
        Board::convert_square_to_bitboard("e44"),
        Err(ParseError::InvalidSquare(_))
    ));
}

#[test]
fn square_names_round_trip() {
    for f in ['a', 'b', 'c', 'd', 'e', 'f', 'g', 'h'] {
        for r in ['1', '2', '3', '4', '5', '6', '7', '8'] {
            let name = format!("{}{}", f, r);
            let mask = Board::convert_square_to_bitboard(&name).unwrap();
            assert_eq!(mask.count_ones(), 1);
            let back = Board::convert_bitboard_to_square(mask).unwrap();
            assert_eq!(back, name);
        }
    }
}

#[test]
fn masks_map_back_to_distinct_squares() {
    let mut seen: Vec<String> = Vec::new();
    for b in 0..64u32 {
        let name = Board::convert_bitboard_to_square(1u64 << b).unwrap();
        assert!(!seen.contains(&name));
        seen.push(name);
    }
    assert_eq!(seen.len(), 64);
}

#[test]
fn empty_mask_has_no_square() {
    assert!(Board::convert_bitboard_to_square(0).is_none());
}

#[test]
fn mask_with_two_bits_has_no_square() {
    assert!(Board::convert_bitboard_to_square(3).is_none());
    assert!(Board::convert_bitboard_to_square(u64::MAX).is_none());
}
