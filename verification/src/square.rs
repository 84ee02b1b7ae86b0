//! The square mapper: algebraic square names to single-bit masks and
//! back.
//!
//! The whole library uses one bit-ordering convention: the square with
//! file index `f` (0 for file `a` .. 7 for file `h`) and rank index `r`
//! (0 for rank 1 .. 7 for rank 8) sits at bit `r * 8 + (7 - f)`.

use crate::bits::bit_index;
use crate::bits::is_single_bit;
use crate::bits::lemma_single_bit_index;
use crate::board::Board;
use crate::error::ParseError;
use vstd::prelude::*;

verus! {

/// The file index of a file letter: 0 for `a` .. 7 for `h`, and -1 for
/// any other character.
pub open spec fn file_index(c: char) -> int {
    if c == 'a' {
        0
    } else if c == 'b' {
        1
    } else if c == 'c' {
        2
    } else if c == 'd' {
        3
    } else if c == 'e' {
        4
    } else if c == 'f' {
        5
    } else if c == 'g' {
        6
    } else if c == 'h' {
        7
    } else {
        -1
    }
}

/// The rank index of a rank digit: 0 for `1` .. 7 for `8`, and -1 for
/// any other character.
pub open spec fn rank_index(c: char) -> int {
    if c == '1' {
        0
    } else if c == '2' {
        1
    } else if c == '3' {
        2
    } else if c == '4' {
        3
    } else if c == '5' {
        4
    } else if c == '6' {
        5
    } else if c == '7' {
        6
    } else if c == '8' {
        7
    } else {
        -1
    }
}

/// The file letter at file index `f` (meaningful for 0 <= f < 8).
pub open spec fn file_char(f: int) -> char {
    if f == 0 {
        'a'
    } else if f == 1 {
        'b'
    } else if f == 2 {
        'c'
    } else if f == 3 {
        'd'
    } else if f == 4 {
        'e'
    } else if f == 5 {
        'f'
    } else if f == 6 {
        'g'
    } else {
        'h'
    }
}

/// The rank digit at rank index `r` (meaningful for 0 <= r < 8).
pub open spec fn rank_char(r: int) -> char {
    if r == 0 {
        '1'
    } else if r == 1 {
        '2'
    } else if r == 2 {
        '3'
    } else if r == 3 {
        '4'
    } else if r == 4 {
        '5'
    } else if r == 5 {
        '6'
    } else if r == 6 {
        '7'
    } else {
        '8'
    }
}

/// A legal two-character algebraic square name, `a1` through `h8`.
pub open spec fn valid_square_name(s: Seq<char>) -> bool {
    s.len() == 2 && file_index(s[0]) >= 0 && rank_index(s[1]) >= 0
}

/// The bit position of a square name under the library's convention.
pub open spec fn square_bit(s: Seq<char>) -> int {
    rank_index(s[1]) * 8 + 7 - file_index(s[0])
}

/// The single-bit mask of a square name.
pub open spec fn square_mask(s: Seq<char>) -> u64 {
    1u64 << (square_bit(s) as u64)
}

/// The name of the square whose mask has its single bit at position
/// `b` (meaningful for 0 <= b < 64).
pub open spec fn name_of_bit(b: int) -> Seq<char> {
    seq![file_char(7 - (b % 8)), rank_char(b / 8)]
}

/// The two mappings invert one another on the sixty-four legal square
/// names: the mask of a name has a single set bit, and that bit maps
/// back to the same name.
pub proof fn lemma_square_round_trip(s: Seq<char>)
    requires
        valid_square_name(s),
    ensures
        is_single_bit(square_mask(s)),
        name_of_bit(bit_index(square_mask(s))) == s,
{
    let f = file_index(s[0]);
    let r = rank_index(s[1]);
    let b = square_bit(s);
    assert(0 <= f < 8);
    assert(0 <= r < 8);
    assert(0 <= b < 64);
    lemma_single_bit_index(square_mask(s), b as u64);
    assert(b % 8 == 7 - f);
    assert(b / 8 == r);
    assert(file_char(f) == s[0]);
    assert(rank_char(r) == s[1]);
    assert(name_of_bit(b) =~= s);
}

/// The file index of a file letter, as an executable value; `None` for
/// a character that is no file letter.
fn file_index_of(c: char) -> (r: Option<usize>)
    ensures
        r is Some <==> file_index(c) >= 0,
        r is Some ==> r->0 as int == file_index(c) && r->0 < 8,
{
    match c {
        'a' => Some(0),
        'b' => Some(1),
        'c' => Some(2),
        'd' => Some(3),
        'e' => Some(4),
        'f' => Some(5),
        'g' => Some(6),
        'h' => Some(7),
        _ => None,
    }
}

/// The rank index of a rank digit, as an executable value; `None` for
/// a character that is no rank digit.
fn rank_index_of(c: char) -> (r: Option<usize>)
    ensures
        r is Some <==> rank_index(c) >= 0,
        r is Some ==> r->0 as int == rank_index(c) && r->0 < 8,
{
    match c {
        '1' => Some(0),
        '2' => Some(1),
        '3' => Some(2),
        '4' => Some(3),
        '5' => Some(4),
        '6' => Some(5),
        '7' => Some(6),
        '8' => Some(7),
        _ => None,
    }
}

/// The one-character text of the file letter at file index `f`.
fn file_str(f: usize) -> (r: &'static str)
    requires
        f < 8,
    ensures
        r@ == seq![file_char(f as int)],
{
    match f {
        0 => {
            proof {
                reveal_strlit("a");
                assert("a"@ =~= seq![file_char(0)]);
            }
            "a"
        },
        1 => {
            proof {
                reveal_strlit("b");
                assert("b"@ =~= seq![file_char(1)]);
            }
            "b"
        },
        2 => {
            proof {
                reveal_strlit("c");
                assert("c"@ =~= seq![file_char(2)]);
            }
            "c"
        },
        3 => {
            proof {
                reveal_strlit("d");
                assert("d"@ =~= seq![file_char(3)]);
            }
            "d"
        },
        4 => {
            proof {
                reveal_strlit("e");
                assert("e"@ =~= seq![file_char(4)]);
            }
            "e"
        },
        5 => {
            proof {
                reveal_strlit("f");
                assert("f"@ =~= seq![file_char(5)]);
            }
            "f"
        },
        6 => {
            proof {
                reveal_strlit("g");
                assert("g"@ =~= seq![file_char(6)]);
            }
            "g"
        },
        _ => {
            proof {
                reveal_strlit("h");
                assert("h"@ =~= seq![file_char(7)]);
            }
            "h"
        },
    }
}

/// The one-character text of the rank digit at rank index `r`.
fn rank_str(r: usize) -> (s: &'static str)
    requires
        r < 8,
    ensures
        s@ == seq![rank_char(r as int)],
{
    match r {
        0 => {
            proof {
                reveal_strlit("1");
                assert("1"@ =~= seq![rank_char(0)]);
            }
            "1"
        },
        1 => {
            proof {
                reveal_strlit("2");
                assert("2"@ =~= seq![rank_char(1)]);
            }
            "2"
        },
        2 => {
            proof {
                reveal_strlit("3");
                assert("3"@ =~= seq![rank_char(2)]);
            }
            "3"
        },
        3 => {
            proof {
                reveal_strlit("4");
                assert("4"@ =~= seq![rank_char(3)]);
            }
            "4"
        },
        4 => {
            proof {
                reveal_strlit("5");
                assert("5"@ =~= seq![rank_char(4)]);
            }
            "5"
        },
        5 => {
            proof {
                reveal_strlit("6");
                assert("6"@ =~= seq![rank_char(5)]);
            }
            "6"
        },
        6 => {
            proof {
                reveal_strlit("7");
                assert("7"@ =~= seq![rank_char(6)]);
            }
            "7"
        },
        _ => {
            proof {
                reveal_strlit("8");
                assert("8"@ =~= seq![rank_char(7)]);
            }
            "8"
        },
    }
}

impl Board {
    /// Converts algebraic square text into the mask of that square.
    /// The no-square marker `-` converts to the empty mask; any other
    /// text that is not a legal square name is rejected.
    pub fn convert_square_to_bitboard(square: &str) -> (r: Result<u64, ParseError>)
        ensures
            square@ == seq!['-'] ==> r == Ok::<u64, ParseError>(0u64),
            valid_square_name(square@) ==> {
                &&& r is Ok
                &&& r->Ok_0 == square_mask(square@)
                &&& is_single_bit(square_mask(square@))
            },
            r is Ok <==> (square@ == seq!['-'] || valid_square_name(square@)),
            r is Err ==> (r->Err_0 matches ParseError::InvalidSquare(t) && t@ == square@),
    {
        let n = square.unicode_len();
        if n == 1 && square.get_char(0) == '-' {
            proof {
                assert(square@ =~= seq!['-']);
            }
            return Ok(0);
        }
        proof {
            assert(square@ != seq!['-']) by {
                if square@ == seq!['-'] {
                    assert(square@.len() == 1);
                    assert(square@[0] == '-');
                }
            }
        }
        if n != 2 {
            return Err(ParseError::InvalidSquare(square.to_owned()));
        }
        let c0 = square.get_char(0);
        let c1 = square.get_char(1);
        let f = match file_index_of(c0) {
            Some(f) => f,
            None => {
                return Err(ParseError::InvalidSquare(square.to_owned()));
            },
        };
        let rk = match rank_index_of(c1) {
            Some(rk) => rk,
            None => {
                return Err(ParseError::InvalidSquare(square.to_owned()));
            },
        };
        let bit = rk * 8 + 7 - f;
        proof {
            assert(valid_square_name(square@));
            assert(bit as int == square_bit(square@));
            lemma_single_bit_index(1u64 << (bit as u64), bit as u64);
        }
        Ok(1u64 << (bit as u64))
    }

    /// The inverse mapping: the name of the square whose mask is
    /// `mask`. Defined exactly when `mask` has a single set bit; the
    /// empty mask and a mask with several set bits have no name.
    pub fn convert_bitboard_to_square(mask: u64) -> (r: Option<String>)
        ensures
            is_single_bit(mask) ==> {
                &&& r is Some
                &&& r->0@ == name_of_bit(bit_index(mask))
                &&& valid_square_name(r->0@)
            },
            !is_single_bit(mask) ==> r is None,
    {
        let mut b: u64 = 0;
        while b < 64
            invariant
                b <= 64,
                forall|x: u64| x < b ==> mask != (1u64 << x),
            decreases 64 - b,
        {
            if mask == (1u64 << b) {
                proof {
                    lemma_single_bit_index(mask, b);
                }
                let file = (7 - (b % 8)) as usize;
                let rank = (b / 8) as usize;
                let name = String::from_str(file_str(file)).concat(rank_str(rank));
                proof {
                    assert(name@ =~= name_of_bit(b as int));
                }
                return Some(name);
            }
            b = b + 1;
        }
        proof {
            assert(!is_single_bit(mask));
        }
        None
    }
}

} // verus!
