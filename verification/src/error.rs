//! The parse errors of the decoder.

use vstd::prelude::*;

verus! {

/// A validation failure of one FEN field. Every failure is a local,
/// recoverable value, never a panic; each variant carries the offending
/// text so that a caller can build a readable message.
#[derive(Debug)]
pub enum ParseError {
    /// The input did not split into exactly six whitespace-separated
    /// fields. Carries the whole input.
    MissingFields(String),
    /// A rank of the placement field does not cover exactly eight
    /// squares, or the field as a whole does not cover sixty-four.
    MalformedRank(String),
    /// The placement field holds a character that is neither a piece
    /// letter, a digit 1 through 8, nor a rank separator.
    InvalidPieceChar(String),
    /// The side-to-move field is neither `w` nor `b`.
    InvalidSideToMove(String),
    /// The castling field is neither `-` nor a non-empty selection of
    /// `K`, `Q`, `k`, `q` in that order without repeats.
    InvalidCastling(String),
    /// The en-passant field is neither `-` nor a legal square name.
    InvalidEnPassant(String),
    /// The half-move clock is not a non-negative decimal integer that
    /// fits in 64 bits.
    InvalidHalfMoveClock(String),
    /// The full-move clock is not a positive decimal integer that fits
    /// in 64 bits.
    InvalidFullMoveClock(String),
    /// Malformed algebraic square text passed to the square mapper.
    InvalidSquare(String),
}

impl ParseError {
    /// The text the failing field held, exactly as it stood in the input.
    pub fn offending_text(&self) -> (t: &String)
        ensures
            t@ == self.offending_view(),
    {
        match self {
            ParseError::MissingFields(t) => t,
            ParseError::MalformedRank(t) => t,
            ParseError::InvalidPieceChar(t) => t,
            ParseError::InvalidSideToMove(t) => t,
            ParseError::InvalidCastling(t) => t,
            ParseError::InvalidEnPassant(t) => t,
            ParseError::InvalidHalfMoveClock(t) => t,
            ParseError::InvalidFullMoveClock(t) => t,
            ParseError::InvalidSquare(t) => t,
        }
    }

    /// The view of the offending text carried by the error.
    pub open spec fn offending_view(&self) -> Seq<char> {
        match self {
            ParseError::MissingFields(t) => t@,
            ParseError::MalformedRank(t) => t@,
            ParseError::InvalidPieceChar(t) => t@,
            ParseError::InvalidSideToMove(t) => t@,
            ParseError::InvalidCastling(t) => t@,
            ParseError::InvalidEnPassant(t) => t@,
            ParseError::InvalidHalfMoveClock(t) => t@,
            ParseError::InvalidFullMoveClock(t) => t@,
            ParseError::InvalidSquare(t) => t@,
        }
    }

    /// A human-readable description: a fixed phrase for the variant
    /// followed by the offending text.
    pub fn message(&self) -> (m: String)
        ensures
            m@ == self.message_view(),
    {
        match self {
            ParseError::MissingFields(t) => String::from_str(
                "invalid FEN: expected six fields in: ",
            ).concat(t.as_str()),
            ParseError::MalformedRank(t) => String::from_str(
                "invalid FEN: malformed rank in placement field: ",
            ).concat(t.as_str()),
            ParseError::InvalidPieceChar(t) => String::from_str(
                "invalid FEN: unrecognized character in placement field: ",
            ).concat(t.as_str()),
            ParseError::InvalidSideToMove(t) => String::from_str(
                "invalid FEN: side-to-move field: ",
            ).concat(t.as_str()),
            ParseError::InvalidCastling(t) => String::from_str(
                "invalid FEN: castling field: ",
            ).concat(t.as_str()),
            ParseError::InvalidEnPassant(t) => String::from_str(
                "invalid FEN: en-passant field: ",
            ).concat(t.as_str()),
            ParseError::InvalidHalfMoveClock(t) => String::from_str(
                "invalid FEN: half-move clock field: ",
            ).concat(t.as_str()),
            ParseError::InvalidFullMoveClock(t) => String::from_str(
                "invalid FEN: full-move clock field: ",
            ).concat(t.as_str()),
            ParseError::InvalidSquare(t) => String::from_str(
                "invalid square passed to the conversion function: ",
            ).concat(t.as_str()),
        }
    }

    /// The view of the message, one fixed phrase per variant.
    pub open spec fn message_view(&self) -> Seq<char> {
        match self {
            ParseError::MissingFields(t) => "invalid FEN: expected six fields in: "@ + t@,
            ParseError::MalformedRank(t) => "invalid FEN: malformed rank in placement field: "@
                + t@,
            ParseError::InvalidPieceChar(t) =>
                "invalid FEN: unrecognized character in placement field: "@ + t@,
            ParseError::InvalidSideToMove(t) => "invalid FEN: side-to-move field: "@ + t@,
            ParseError::InvalidCastling(t) => "invalid FEN: castling field: "@ + t@,
            ParseError::InvalidEnPassant(t) => "invalid FEN: en-passant field: "@ + t@,
            ParseError::InvalidHalfMoveClock(t) => "invalid FEN: half-move clock field: "@ + t@,
            ParseError::InvalidFullMoveClock(t) => "invalid FEN: full-move clock field: "@ + t@,
            ParseError::InvalidSquare(t) => "invalid square passed to the conversion function: "@
                + t@,
        }
    }
}

} // verus!
