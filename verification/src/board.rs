//! The decoded board state and the FEN decoder.

use crate::bits::is_single_bit;
use crate::error::ParseError;
use crate::fields::digits_val;
use crate::fields::fields_of;
use crate::fields::parse_castling;
use crate::fields::parse_clock;
use crate::fields::parse_side;
use crate::fields::side_of;
use crate::fields::split_fields;
use crate::fields::valid_castling;
use crate::fields::valid_clock;
use crate::piece::kind_index;
use crate::piece::piece_kind_index;
use crate::piece::PieceKind;
use crate::piece::Side;
use crate::placement::lemma_placement_masks;
use crate::placement::masks_disjoint;
use crate::placement::parse_placement;
use crate::placement::placement_of;
use crate::placement::Placement;
use crate::square::square_mask;
use crate::square::valid_square_name;
use vstd::prelude::*;

verus! {

/// The state decoded from one FEN string. A board is produced once,
/// atomically, by the decoder and never mutated afterwards.
#[derive(Debug)]
pub struct Board {
    /// Twelve occupancy masks, indexed by `crate::piece::kind_index`.
    /// Bit `r * 8 + (7 - f)` of a mask says that the piece kind stands
    /// on the square with file index `f` and rank index `r`.
    pub occupancy: [u64; 12],
    /// Whose move it is.
    pub side_to_move: Side,
    /// The castling field exactly as validated: `-`, or one to four of
    /// the letters `K`, `Q`, `k`, `q` in that order without repeats.
    pub castling_rights: String,
    /// The single-bit mask of the en-passant target square, or `None`
    /// when no en-passant capture is available.
    pub en_passant_target: Option<u64>,
    /// Moves since the last pawn advance or capture.
    pub half_move_clock: u64,
    /// Starts at 1 and grows after each move of Black.
    pub full_move_clock: u64,
}

/// The en-passant target that a valid en-passant field describes.
pub open spec fn ep_of(s: Seq<char>) -> Option<u64> {
    if s == seq!['-'] {
        None
    } else {
        Some(square_mask(s))
    }
}

/// A string decodes successfully exactly when it splits into six
/// fields and every field is valid.
pub open spec fn fen_ok(s: Seq<char>) -> bool {
    let fs = fields_of(s);
    &&& fs.len() == 6
    &&& placement_of(fs[0]) is Masks
    &&& side_of(fs[1]) is Some
    &&& valid_castling(fs[2])
    &&& (fs[3] == seq!['-'] || valid_square_name(fs[3]))
    &&& valid_clock(fs[4])
    &&& valid_clock(fs[5])
    &&& digits_val(fs[5]) >= 1
}

/// What a successful decode of `s` returns: every component of the
/// board is the meaning of its field.
pub open spec fn decodes_to(s: Seq<char>, b: Board) -> bool {
    let fs = fields_of(s);
    &&& fen_ok(s)
    &&& b.occupancy@ == placement_of(fs[0])->Masks_0
    &&& Some(b.side_to_move) == side_of(fs[1])
    &&& b.castling_rights@ == fs[2]
    &&& b.en_passant_target == ep_of(fs[3])
    &&& b.half_move_clock as int == digits_val(fs[4])
    &&& b.full_move_clock as int == digits_val(fs[5])
}

/// The error a rejected string deserves. The fields are checked in
/// order — field count, placement, side to move, castling, en passant,
/// half-move clock, full-move clock — and the first failing check
/// names the error and carries the failing text.
pub open spec fn decode_err_matches(s: Seq<char>, e: ParseError) -> bool {
    let fs = fields_of(s);
    if fs.len() != 6 {
        e matches ParseError::MissingFields(t) && t@ == s
    } else if placement_of(fs[0]) is BadRank {
        e matches ParseError::MalformedRank(t) && t@ == fs[0]
    } else if placement_of(fs[0]) is BadChar {
        e matches ParseError::InvalidPieceChar(t) && t@ == fs[0]
    } else if side_of(fs[1]) is None {
        e matches ParseError::InvalidSideToMove(t) && t@ == fs[1]
    } else if !valid_castling(fs[2]) {
        e matches ParseError::InvalidCastling(t) && t@ == fs[2]
    } else if !(fs[3] == seq!['-'] || valid_square_name(fs[3])) {
        e matches ParseError::InvalidEnPassant(t) && t@ == fs[3]
    } else if !valid_clock(fs[4]) {
        e matches ParseError::InvalidHalfMoveClock(t) && t@ == fs[4]
    } else {
        e matches ParseError::InvalidFullMoveClock(t) && t@ == fs[5]
    }
}

impl Board {
    /// The invariants that every decoded board enjoys: no square holds
    /// two pieces, the en-passant mask (when present) names one
    /// square, the castling text is valid, and the full-move clock is
    /// positive.
    pub open spec fn wf(self) -> bool {
        &&& masks_disjoint(self.occupancy@)
        &&& (self.en_passant_target matches Some(m) ==> is_single_bit(m))
        &&& valid_castling(self.castling_rights@)
        &&& self.full_move_clock >= 1
    }

    /// The occupancy mask of one piece kind.
    pub fn piece_mask(&self, kind: PieceKind) -> (m: u64)
        ensures
            m == self.occupancy@[kind_index(kind)],
    {
        let i = piece_kind_index(kind);
        self.occupancy[i]
    }

    /// Decodes a FEN string: six whitespace-separated fields — piece
    /// placement, side to move, castling rights, en-passant target,
    /// half-move clock, full-move clock. Succeeds exactly on
    /// syntactically valid strings, returns every component's meaning,
    /// and on a rejected string names the first failing field.
    pub fn parse_fen(fen_string: &String) -> (r: Result<Board, ParseError>)
        ensures
            r is Ok <==> fen_ok(fen_string@),
            r matches Ok(b) ==> decodes_to(fen_string@, b) && b.wf(),
            r matches Err(e) ==> decode_err_matches(fen_string@, e),
    {
        let s = fen_string.as_str();
        let ranges = split_fields(s);
        let ghost fs = fields_of(s@);
        if ranges.len() != 6 {
            return Err(ParseError::MissingFields(s.to_owned()));
        }
        let r0 = ranges[0];
        let r1 = ranges[1];
        let r2 = ranges[2];
        let r3 = ranges[3];
        let r4 = ranges[4];
        let r5 = ranges[5];
        let f0 = s.substring_char(r0.0, r0.1);
        let f1 = s.substring_char(r1.0, r1.1);
        let f2 = s.substring_char(r2.0, r2.1);
        let f3 = s.substring_char(r3.0, r3.1);
        let f4 = s.substring_char(r4.0, r4.1);
        let f5 = s.substring_char(r5.0, r5.1);
        proof {
            assert(f0@ == fs[0]);
            assert(f1@ == fs[1]);
            assert(f2@ == fs[2]);
            assert(f3@ == fs[3]);
            assert(f4@ == fs[4]);
            assert(f5@ == fs[5]);
        }
        let occupancy = match parse_placement(f0) {
            Ok(m) => m,
            Err(e) => {
                return Err(e);
            },
        };
        proof {
            lemma_placement_masks(f0@);
        }
        let side = match parse_side(f1) {
            Some(sd) => sd,
            None => {
                return Err(ParseError::InvalidSideToMove(f1.to_owned()));
            },
        };
        if !parse_castling(f2) {
            return Err(ParseError::InvalidCastling(f2.to_owned()));
        }
        let castling_rights = f2.to_owned();
        let en_passant_target = if f3.unicode_len() == 1 && f3.get_char(0) == '-' {
            proof {
                assert(f3@ =~= seq!['-']);
            }
            None
        } else {
            proof {
                assert(f3@ != seq!['-']) by {
                    if f3@ == seq!['-'] {
                        assert(f3@.len() == 1);
                        assert(f3@[0] == '-');
                    }
                }
            }
            match Board::convert_square_to_bitboard(f3) {
                Ok(m) => Some(m),
                Err(_) => {
                    return Err(ParseError::InvalidEnPassant(f3.to_owned()));
                },
            }
        };
        let half_move_clock = match parse_clock(f4) {
            Some(v) => v,
            None => {
                return Err(ParseError::InvalidHalfMoveClock(f4.to_owned()));
            },
        };
        let full_move_clock = match parse_clock(f5) {
            Some(v) => v,
            None => {
                return Err(ParseError::InvalidFullMoveClock(f5.to_owned()));
            },
        };
        if full_move_clock == 0 {
            return Err(ParseError::InvalidFullMoveClock(f5.to_owned()));
        }
        Ok(
            Board {
                occupancy,
                side_to_move: side,
                castling_rights,
                en_passant_target,
                half_move_clock,
                full_move_clock,
            },
        )
    }
}

} // verus!
