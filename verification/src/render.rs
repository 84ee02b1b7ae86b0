//! Rendering a board back to a human-readable grid of characters.

use crate::bits::bit_of;
use crate::board::decodes_to;
use crate::board::Board;
use crate::fields::fields_of;
use crate::piece::lemma_piece_letters;
use crate::piece::piece_index;
use crate::piece::piece_letter;
use crate::placement::char_at;
use crate::placement::char_at_from;
use crate::placement::lemma_placement_masks;
use crate::placement::square_chars;
use vstd::prelude::*;

verus! {

/// One rendered row: for each file from `a` to `h`, the square's
/// character followed by one space. Row 0 shows rank 8 (bits 63 down
/// to 56) and row 7 shows rank 1 (bits 7 down to 0).
pub open spec fn render_row(masks: Seq<u64>, row: int) -> Seq<char> {
    Seq::new(
        16,
        |j: int|
            if j % 2 == 0 {
                char_at(masks, 63 - (8 * row + j / 2))
            } else {
                ' '
            },
    )
}

/// A character that can stand on a rendered board: a piece letter or
/// the empty-square character.
pub open spec fn is_board_char(c: char) -> bool {
    c == '.' || piece_index(c) >= 0
}

/// Whatever a mask lookup yields can stand on a board.
proof fn lemma_char_at_board(masks: Seq<u64>, i: int, k: int)
    ensures
        is_board_char(char_at_from(masks, i, k)),
    decreases 12 - k,
{
    if 0 <= k < 12 {
        if bit_of(masks[k], i) {
            lemma_piece_letters('.', k);
        } else {
            lemma_char_at_board(masks, i, k + 1);
        }
    }
}

/// The one-character text of a board character.
fn board_char_str(c: char) -> (r: &'static str)
    requires
        is_board_char(c),
    ensures
        r@ == seq![c],
{
    match c {
        '.' => {
            proof {
                reveal_strlit(".");
                assert("."@ =~= seq!['.']);
            }
            "."
        },
        'P' => {
            proof {
                reveal_strlit("P");
                assert("P"@ =~= seq!['P']);
            }
            "P"
        },
        'R' => {
            proof {
                reveal_strlit("R");
                assert("R"@ =~= seq!['R']);
            }
            "R"
        },
        'N' => {
            proof {
                reveal_strlit("N");
                assert("N"@ =~= seq!['N']);
            }
            "N"
        },
        'B' => {
            proof {
                reveal_strlit("B");
                assert("B"@ =~= seq!['B']);
            }
            "B"
        },
        'Q' => {
            proof {
                reveal_strlit("Q");
                assert("Q"@ =~= seq!['Q']);
            }
            "Q"
        },
        'K' => {
            proof {
                reveal_strlit("K");
                assert("K"@ =~= seq!['K']);
            }
            "K"
        },
        'p' => {
            proof {
                reveal_strlit("p");
                assert("p"@ =~= seq!['p']);
            }
            "p"
        },
        'r' => {
            proof {
                reveal_strlit("r");
                assert("r"@ =~= seq!['r']);
            }
            "r"
        },
        'n' => {
            proof {
                reveal_strlit("n");
                assert("n"@ =~= seq!['n']);
            }
            "n"
        },
        'b' => {
            proof {
                reveal_strlit("b");
                assert("b"@ =~= seq!['b']);
            }
            "b"
        },
        'q' => {
            proof {
                reveal_strlit("q");
                assert("q"@ =~= seq!['q']);
            }
            "q"
        },
        'k' => {
            proof {
                reveal_strlit("k");
                assert("k"@ =~= seq!['k']);
            }
            "k"
        },
        _ => unreached(),
    }
}

impl Board {
    /// Writes `piece` into every cell of `arr` whose bit is set in
    /// `bitboard`, leaving the other cells as they were.
    pub fn populate_array(arr: [char; 64], piece: char, bitboard: &u64) -> (res: [char; 64])
        ensures
            forall|i: int|
                0 <= i < 64 ==> res@[i] == (if bit_of(*bitboard, i) {
                    piece
                } else {
                    arr@[i]
                }),
    {
        let mut res = arr;
        let mut i: usize = 0;
        while i < 64
            invariant
                i <= 64,
                forall|j: int|
                    0 <= j < i ==> res@[j] == (if bit_of(*bitboard, j) {
                        piece
                    } else {
                        arr@[j]
                    }),
                forall|j: int| i <= j < 64 ==> res@[j] == arr@[j],
            decreases 64 - i,
        {
            if (*bitboard >> (i as u64)) & 1 == 1 {
                res[i] = piece;
            }
            i = i + 1;
        }
        res
    }

    /// Renders the board as eight rows of sixteen characters: for each
    /// square its piece letter — upper case for White, lower case for
    /// Black, `.` for an empty square — followed by one space. The
    /// first row shows rank 8 and the last rank 1, files `a` through
    /// `h` from left to right. On a board where several masks hold one
    /// square (which a decoded board never has), the kind with the
    /// lowest index wins, deterministically.
    pub fn render(&self) -> (rows: Vec<String>)
        ensures
            rows@.len() == 8,
            forall|row: int|
                0 <= row < 8 ==> (#[trigger] rows@[row])@ == render_row(self.occupancy@, row),
    {
        let mut arr: [char; 64] = ['.';64];
        let mut k: usize = 12;
        while k > 0
            invariant
                k <= 12,
                forall|i: int| 0 <= i < 64 ==> arr@[i] == char_at_from(self.occupancy@, i, k as int),
            decreases k,
        {
            k = k - 1;
            let mask = self.occupancy[k];
            arr = Board::populate_array(arr, piece_letter(k), &mask);
        }
        let mut rows: Vec<String> = Vec::new();
        let mut row: usize = 0;
        while row < 8
            invariant
                row <= 8,
                rows@.len() == row,
                forall|t: int|
                    0 <= t < row ==> (#[trigger] rows@[t])@ == render_row(self.occupancy@, t),
                forall|i: int| 0 <= i < 64 ==> arr@[i] == char_at(self.occupancy@, i),
            decreases 8 - row,
        {
            let mut line = String::new();
            let mut col: usize = 0;
            while col < 8
                invariant
                    col <= 8,
                    row < 8,
                    forall|i: int| 0 <= i < 64 ==> arr@[i] == char_at(self.occupancy@, i),
                    line@.len() == 2 * col,
                    forall|j: int|
                        0 <= j < 2 * col ==> line@[j] == render_row(self.occupancy@, row as int)[j],
                decreases 8 - col,
            {
                let b = 63 - (8 * row + col);
                let c = arr[b];
                proof {
                    lemma_char_at_board(self.occupancy@, b as int, 0);
                    reveal_strlit(" ");
                    assert(" "@ =~= seq![' ']);
                }
                line.append(board_char_str(c));
                line.append(" ");
                col = col + 1;
            }
            proof {
                assert(line@ =~= render_row(self.occupancy@, row as int));
            }
            rows.push(line);
            row = row + 1;
        }
        rows
    }
}

/// Decoding then rendering reproduces the piece layout. On a string
/// that decodes, the placement field describes sixty-four square
/// characters in scan order, and the rendered grid shows exactly those
/// characters: the square at scan position `q` appears in row `q / 8`
/// at text column `2 * (q % 8)`.
pub proof fn lemma_decode_render_round_trip(s: Seq<char>, b: Board)
    requires
        decodes_to(s, b),
    ensures
        square_chars(fields_of(s)[0]).len() == 64,
        forall|q: int|
            #![trigger square_chars(fields_of(s)[0])[q]]
            0 <= q < 64 ==> render_row(b.occupancy@, q / 8)[2 * (q % 8)] == square_chars(
                fields_of(s)[0],
            )[q],
{
    let f0 = fields_of(s)[0];
    lemma_placement_masks(f0);
    assert forall|q: int| 0 <= q < 64 implies render_row(b.occupancy@, q / 8)[2 * (q % 8)]
        == square_chars(f0)[q] by {
        let row = q / 8;
        let col = q % 8;
        assert(0 <= row < 8);
        assert(0 <= col < 8);
        assert(8 * row + col == q);
        assert(render_row(b.occupancy@, row)[2 * col] == char_at(b.occupancy@, 63 - q));
        assert(char_at(b.occupancy@, 63 - q) == square_chars(f0)[q]);
    }
}

} // verus!
