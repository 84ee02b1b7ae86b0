//! Piece kinds, piece letters, and the side to move.

use vstd::prelude::*;

verus! {

/// The side to move.
#[derive(Clone, Copy, Debug, PartialEq, Eq, Structural)]
pub enum Side {
    White,
    Black,
}

/// One of the twelve piece kinds: the White pieces first, then the
/// Black ones, each color in the order pawn, rook, knight, bishop,
/// queen, king. The order fixes the index of each kind's mask in the
/// occupancy array and the precedence of the renderer (the kind with
/// the lowest index wins a contested square).
#[derive(Clone, Copy, Debug, PartialEq, Eq, Structural)]
pub enum PieceKind {
    WhitePawn,
    WhiteRook,
    WhiteKnight,
    WhiteBishop,
    WhiteQueen,
    WhiteKing,
    BlackPawn,
    BlackRook,
    BlackKnight,
    BlackBishop,
    BlackQueen,
    BlackKing,
}

/// The index of a piece kind's mask in the occupancy array.
pub open spec fn kind_index(k: PieceKind) -> int {
    match k {
        PieceKind::WhitePawn => 0,
        PieceKind::WhiteRook => 1,
        PieceKind::WhiteKnight => 2,
        PieceKind::WhiteBishop => 3,
        PieceKind::WhiteQueen => 4,
        PieceKind::WhiteKing => 5,
        PieceKind::BlackPawn => 6,
        PieceKind::BlackRook => 7,
        PieceKind::BlackKnight => 8,
        PieceKind::BlackBishop => 9,
        PieceKind::BlackQueen => 10,
        PieceKind::BlackKing => 11,
    }
}

/// The index of a piece kind's mask, as an executable value.
pub fn piece_kind_index(k: PieceKind) -> (i: usize)
    ensures
        i as int == kind_index(k),
        i < 12,
{
    match k {
        PieceKind::WhitePawn => 0,
        PieceKind::WhiteRook => 1,
        PieceKind::WhiteKnight => 2,
        PieceKind::WhiteBishop => 3,
        PieceKind::WhiteQueen => 4,
        PieceKind::WhiteKing => 5,
        PieceKind::BlackPawn => 6,
        PieceKind::BlackRook => 7,
        PieceKind::BlackKnight => 8,
        PieceKind::BlackBishop => 9,
        PieceKind::BlackQueen => 10,
        PieceKind::BlackKing => 11,
    }
}

/// The mask index of a piece letter (its position in `PRNBQKprnbqk`),
/// or -1 for any other character.
pub open spec fn piece_index(c: char) -> int {
    if c == 'P' {
        0
    } else if c == 'R' {
        1
    } else if c == 'N' {
        2
    } else if c == 'B' {
        3
    } else if c == 'Q' {
        4
    } else if c == 'K' {
        5
    } else if c == 'p' {
        6
    } else if c == 'r' {
        7
    } else if c == 'n' {
        8
    } else if c == 'b' {
        9
    } else if c == 'q' {
        10
    } else if c == 'k' {
        11
    } else {
        -1
    }
}

/// The letter of the piece kind with mask index `k`: upper case for
/// White, lower case for Black. Indices outside the twelve kinds give
/// the empty-square character.
pub open spec fn piece_char(k: int) -> char {
    if k == 0 {
        'P'
    } else if k == 1 {
        'R'
    } else if k == 2 {
        'N'
    } else if k == 3 {
        'B'
    } else if k == 4 {
        'Q'
    } else if k == 5 {
        'K'
    } else if k == 6 {
        'p'
    } else if k == 7 {
        'r'
    } else if k == 8 {
        'n'
    } else if k == 9 {
        'b'
    } else if k == 10 {
        'q'
    } else if k == 11 {
        'k'
    } else {
        '.'
    }
}

/// The mask index of a piece letter, as an executable value; `None`
/// for a character that is no piece letter.
pub fn piece_index_of(c: char) -> (r: Option<usize>)
    ensures
        r is Some <==> piece_index(c) >= 0,
        r is Some ==> r->0 as int == piece_index(c) && r->0 < 12,
{
    match c {
        'P' => Some(0),
        'R' => Some(1),
        'N' => Some(2),
        'B' => Some(3),
        'Q' => Some(4),
        'K' => Some(5),
        'p' => Some(6),
        'r' => Some(7),
        'n' => Some(8),
        'b' => Some(9),
        'q' => Some(10),
        'k' => Some(11),
        _ => None,
    }
}

/// The letter of the piece kind with mask index `k`, as an executable
/// value.
pub fn piece_letter(k: usize) -> (c: char)
    requires
        k < 12,
    ensures
        c == piece_char(k as int),
{
    match k {
        0 => 'P',
        1 => 'R',
        2 => 'N',
        3 => 'B',
        4 => 'Q',
        5 => 'K',
        6 => 'p',
        7 => 'r',
        8 => 'n',
        9 => 'b',
        10 => 'q',
        _ => 'k',
    }
}

/// The piece letters and their mask indices invert one another.
pub proof fn lemma_piece_letters(c: char, k: int)
    ensures
        piece_index(c) >= 0 ==> piece_char(piece_index(c)) == c,
        0 <= k < 12 ==> piece_index(piece_char(k)) == k,
{
}

} // verus!
