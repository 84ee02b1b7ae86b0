use fen_board::board::Board;
use fen_board::piece::Side;

fn decode(fen: &str) -> Board {
    Board::parse_fen(&String::from(fen)).unwrap()
}

#[test]
fn render_start_position() {
    let b = decode("rnbqkbnr/pppppppp/8/8/8/8/PPPPPPPP/RNBQKBNR w KQkq - 0 1");
    let rows = b.render();
    assert_eq!(rows.len(), 8);
    assert_eq!(rows[0], "r n b q k b n r ".to_string());
    assert_eq!(rows[1], "p p p p p p p p ".to_string());
    assert_eq!(rows[2], ". . . . . . . . ".to_string());
    assert_eq!(rows[3], ". . . . . . . . ".to_string());
    assert_eq!(rows[4], ". . . . . . . . ".to_string());
    assert_eq!(rows[5], ". . . . . . . . ".to_string());
    assert_eq!(rows[6], "P P P P P P P P ".to_string());
    assert_eq!(rows[7], "R N B Q K B N R ".to_string());
}

#[test]
fn render_empty_board() {
    let b = decode("8/8/8/8/8/8/8/8 w - - 0 1");
    let rows = b.render();
    assert_eq!(rows.len(), 8);
    for row in rows {
        assert_eq!(row, ". . . . . . . . ".to_string());
    }
}

#[test]
fn render_single_piece() {
    // A lone White knight on g7: rank index 6, file index 6, bit 49.
    let b = decode("8/6N1/8/8/8/8/8/8 b - - 11 30");
    assert_eq!(b.side_to_move, Side::Black);
    let rows = b.render();
    assert_eq!(rows[1], ". . . . . . N . ".to_string());
    for (i, row) in rows.iter().enumerate() {
        if i != 1 {
            assert_eq!(*row, ". . . . . . . . ".to_string());
        }
    }
}

#[test]
fn render_rows_have_sixteen_characters() {
    let b = decode("rnbqkbnr/pppppppp/8/8/8/8/PPPPPPPP/RNBQKBNR w KQkq - 0 1");
    for row in b.render() {
        assert_eq!(row.len(), 16);
    }
}

#[test]
fn render_round_trips_a_mixed_position() {
    let b = decode("r3k2r/p1ppqpb1/bn2pnp1/3PN3/1p2P3/2N2Q1p/PPPBBPPP/R3K2R w KQkq - 0 1");
    let rows = b.render();
    assert_eq!(rows[0], "r . . . k . . r ".to_string());
    assert_eq!(rows[1], "p . p p q p b . ".to_string());
    assert_eq!(rows[2], "b n . . p n p . ".to_string());
    assert_eq!(rows[3], ". . . P N . . . ".to_string());
    assert_eq!(rows[4], ". p . . P . . . ".to_string());
    assert_eq!(rows[5], ". . N . . Q . p ".to_string());
    assert_eq!(rows[6], "P P P B B P P P ".to_string());
    assert_eq!(rows[7], "R . . . K . . R ".to_string());
}

#[test]
fn populate_array_writes_only_set_bits() {
    let arr = ['.'; 64];
    let out = Board::populate_array(arr, 'P', &0b101u64);
    assert_eq!(out[0], 'P');
    assert_eq!(out[1], '.');
    assert_eq!(out[2], 'P');
    for i in 3..64 {
        assert_eq!(out[i], '.');
    }
}

#[test]
fn populate_array_keeps_other_cells() {
    let mut arr = ['.'; 64];
    arr[5] = 'k';
    let out = Board::populate_array(arr, 'Q', &(1u64 << 9));
    assert_eq!(out[5], 'k');
    assert_eq!(out[9], 'Q');
}
