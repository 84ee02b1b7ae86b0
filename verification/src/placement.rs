//! The piece-placement field of a FEN string: its mathematical model
//! and its parser.
//!
//! The field is scanned left to right. A separator `/` closes a rank
//! that must have covered exactly eight squares, a digit 1 through 8
//! skips that many empty squares, and a piece letter covers one square
//! and sets one bit. The first square scanned (a8) is bit 63 and the
//! last (h1) is bit 0, which agrees with the square mapper's
//! convention `rank * 8 + (7 - file)`.

use crate::bits::bit_of;
use crate::bits::lemma_bit_of_or;
use crate::bits::lemma_bit_of_single;
use crate::bits::lemma_bit_of_zero;
use crate::bits::lemma_or_preserves_disjoint;
use crate::bits::lemma_unset_bit_and;
use crate::error::ParseError;
use crate::piece::lemma_piece_letters;
use crate::piece::piece_char;
use crate::piece::piece_index;
use crate::piece::piece_index_of;
use vstd::prelude::*;

verus! {

/// The number of empty squares a placement digit stands for: 1 through
/// 8, or -1 for any other character.
pub open spec fn placement_digit(c: char) -> int {
    if c == '1' {
        1
    } else if c == '2' {
        2
    } else if c == '3' {
        3
    } else if c == '4' {
        4
    } else if c == '5' {
        5
    } else if c == '6' {
        6
    } else if c == '7' {
        7
    } else if c == '8' {
        8
    } else {
        -1
    }
}

/// The value of a placement digit, as an executable value; `None` for
/// a character that is no placement digit.
fn placement_digit_of(c: char) -> (r: Option<usize>)
    ensures
        r is Some <==> placement_digit(c) >= 1,
        r is Some ==> r->0 as int == placement_digit(c),
{
    match c {
        '1' => Some(1),
        '2' => Some(2),
        '3' => Some(3),
        '4' => Some(4),
        '5' => Some(5),
        '6' => Some(6),
        '7' => Some(7),
        '8' => Some(8),
        _ => None,
    }
}

/// The state of the placement scan: the masks built so far, the number
/// of completed ranks, and the number of squares covered in the rank
/// being scanned.
pub struct PlaceState {
    pub masks: Seq<u64>,
    pub ranks_done: int,
    pub rank_sum: int,
}

/// The outcome of scanning a prefix of the placement field.
pub enum PlaceScan {
    Good(PlaceState),
    BadRank,
    BadChar,
}

/// How many squares the scan has covered so far.
pub open spec fn covered(st: PlaceState) -> int {
    st.ranks_done * 8 + st.rank_sum
}

/// The scan state before any character: twelve empty masks.
pub open spec fn place_start() -> PlaceState {
    PlaceState { masks: Seq::new(12, |k: int| 0u64), ranks_done: 0, rank_sum: 0 }
}

/// One character of the scan. A separator closes a rank of exactly
/// eight squares (and an eighth rank cannot be closed: a ninth would
/// overrun the board); a digit stays within the rank's eight squares;
/// a piece letter covers the next square and sets the bit of that
/// square in the letter's mask; anything else is an unrecognized
/// character.
pub open spec fn place_step(st: PlaceState, c: char) -> PlaceScan {
    if c == '/' {
        if st.rank_sum == 8 && st.ranks_done < 7 {
            PlaceScan::Good(
                PlaceState { masks: st.masks, ranks_done: st.ranks_done + 1, rank_sum: 0 },
            )
        } else {
            PlaceScan::BadRank
        }
    } else if placement_digit(c) >= 1 {
        if st.rank_sum + placement_digit(c) <= 8 {
            PlaceScan::Good(
                PlaceState {
                    masks: st.masks,
                    ranks_done: st.ranks_done,
                    rank_sum: st.rank_sum + placement_digit(c),
                },
            )
        } else {
            PlaceScan::BadRank
        }
    } else if piece_index(c) >= 0 {
        if st.rank_sum < 8 {
            PlaceScan::Good(
                PlaceState {
                    masks: st.masks.update(
                        piece_index(c),
                        st.masks[piece_index(c)] | (1u64 << ((63 - covered(st)) as u64)),
                    ),
                    ranks_done: st.ranks_done,
                    rank_sum: st.rank_sum + 1,
                },
            )
        } else {
            PlaceScan::BadRank
        }
    } else {
        PlaceScan::BadChar
    }
}

/// The scan of a prefix, character by character from the left.
pub open spec fn place_fold(s: Seq<char>) -> PlaceScan
    decreases s.len(),
{
    if s.len() == 0 {
        PlaceScan::Good(place_start())
    } else {
        match place_fold(s.drop_last()) {
            PlaceScan::Good(st) => place_step(st, s.last()),
            r => r,
        }
    }
}

/// The state of a scan that went through (meaningful when the scan is
/// good).
pub open spec fn fold_state(s: Seq<char>) -> PlaceState {
    place_fold(s)->Good_0
}

/// The meaning of a whole placement field: the twelve occupancy masks,
/// or the error the field deserves. A complete field has covered eight
/// ranks of eight squares each.
pub enum Placement {
    Masks(Seq<u64>),
    BadRank,
    BadChar,
}

pub open spec fn placement_of(s: Seq<char>) -> Placement {
    match place_fold(s) {
        PlaceScan::Good(st) => if st.ranks_done == 7 && st.rank_sum == 8 {
            Placement::Masks(st.masks)
        } else {
            Placement::BadRank
        },
        PlaceScan::BadRank => Placement::BadRank,
        PlaceScan::BadChar => Placement::BadChar,
    }
}

/// No two of the twelve masks share a set bit.
pub open spec fn masks_disjoint(masks: Seq<u64>) -> bool {
    forall|k1: int, k2: int|
        0 <= k1 < 12 && 0 <= k2 < 12 && k1 != k2 ==> #[trigger] (masks[k1] & masks[k2]) == 0
}

/// What holds of every reachable scan state: twelve masks, counters in
/// range, set bits only at squares already covered, and pairwise
/// disjoint masks.
pub open spec fn scan_ok(st: PlaceState) -> bool {
    &&& st.masks.len() == 12
    &&& 0 <= st.ranks_done <= 7
    &&& 0 <= st.rank_sum <= 8
    &&& covered(st) <= 64
    &&& (forall|k: int, i: int|
        0 <= k < 12 && #[trigger] bit_of(st.masks[k], i) ==> i >= 64 - covered(st))
    &&& masks_disjoint(st.masks)
}

/// The square characters that a placement prefix describes, in scan
/// order: a piece letter stands for itself, a digit for that many
/// empty squares, a separator for nothing.
pub open spec fn expand_char(c: char) -> Seq<char> {
    if piece_index(c) >= 0 {
        seq![c]
    } else if placement_digit(c) >= 1 {
        Seq::new(placement_digit(c) as nat, |i: int| '.')
    } else {
        Seq::empty()
    }
}

pub open spec fn square_chars(s: Seq<char>) -> Seq<char>
    decreases s.len(),
{
    if s.len() == 0 {
        Seq::empty()
    } else {
        square_chars(s.drop_last()) + expand_char(s.last())
    }
}

/// The character that the masks show at bit `i`, looking from kind `k`
/// up: the letter of the first kind whose mask holds the bit, or the
/// empty-square character.
pub open spec fn char_at_from(masks: Seq<u64>, i: int, k: int) -> char
    decreases 12 - k,
{
    if k < 0 || k >= 12 {
        '.'
    } else if bit_of(masks[k], i) {
        piece_char(k)
    } else {
        char_at_from(masks, i, k + 1)
    }
}

/// The character that the masks show at bit `i`.
pub open spec fn char_at(masks: Seq<u64>, i: int) -> char {
    char_at_from(masks, i, 0)
}

/// Setting one bit changes exactly that bit of a mask.
proof fn lemma_bit_of_set(m: u64, b: u64, i: int)
    requires
        b < 64,
    ensures
        bit_of(m | (1u64 << b), i) == (bit_of(m, i) || i == b as int),
{
    if 0 <= i < 64 {
        lemma_bit_of_or(m, 1u64 << b, i as u64);
        lemma_bit_of_single(b, i as u64);
    }
}

/// Where no mask from `k` up holds bit `i`, the square shows empty.
proof fn lemma_char_at_none(masks: Seq<u64>, i: int, k: int)
    requires
        forall|j: int| k <= j < 12 ==> !bit_of(#[trigger] masks[j], i),
    ensures
        char_at_from(masks, i, k) == '.',
    decreases 12 - k,
{
    if 0 <= k < 12 {
        lemma_char_at_none(masks, i, k + 1);
    }
}

/// The first mask from `k` up that holds bit `i` names the square.
proof fn lemma_char_at_hit(masks: Seq<u64>, i: int, k: int, k0: int)
    requires
        0 <= k <= k0 < 12,
        bit_of(masks[k0], i),
        forall|j: int| k <= j < k0 ==> !bit_of(#[trigger] masks[j], i),
    ensures
        char_at_from(masks, i, k) == piece_char(k0),
    decreases k0 - k,
{
    if k < k0 {
        lemma_char_at_hit(masks, i, k + 1, k0);
    }
}

/// Masks that agree on bit `i` show the same character there.
proof fn lemma_char_at_congruence(m1: Seq<u64>, m2: Seq<u64>, i: int, k: int)
    requires
        forall|j: int| 0 <= j < 12 ==> bit_of(#[trigger] m1[j], i) == bit_of(m2[j], i),
    ensures
        char_at_from(m1, i, k) == char_at_from(m2, i, k),
    decreases 12 - k,
{
    if 0 <= k < 12 {
        lemma_char_at_congruence(m1, m2, i, k + 1);
    }
}

/// Every good scan state is well formed, has covered as many squares
/// as its prefix describes, and shows exactly the described square
/// characters at the covered bits.
pub proof fn lemma_place_fold_good(s: Seq<char>)
    requires
        place_fold(s) is Good,
    ensures
        scan_ok(fold_state(s)),
        square_chars(s).len() == covered(fold_state(s)),
        forall|q: int|
            #![trigger square_chars(s)[q]]
            0 <= q < covered(fold_state(s)) ==> char_at(fold_state(s).masks, 63 - q)
                == square_chars(s)[q],
    decreases s.len(),
{
    if s.len() == 0 {
        let st = place_start();
        assert forall|k: int, i: int| 0 <= k < 12 implies !(#[trigger] bit_of(st.masks[k], i)) by {
            if 0 <= i < 64 {
                lemma_bit_of_zero(i as u64);
            }
        }
        assert(0u64 & 0u64 == 0) by (bit_vector);
    } else {
        let t = s.drop_last();
        let c = s.last();
        assert(place_fold(t) is Good);
        lemma_place_fold_good(t);
        let st = fold_state(t);
        let st2 = fold_state(s);
        let n = covered(st);
        assert(square_chars(s) == square_chars(t) + expand_char(c));
        if c == '/' {
            assert(square_chars(s) =~= square_chars(t));
            assert(covered(st2) == n);
        } else if placement_digit(c) >= 1 {
            let d = placement_digit(c);
            assert(covered(st2) == n + d);
            assert(square_chars(s).len() == n + d);
            assert forall|q: int|
                #![trigger square_chars(s)[q]]
                0 <= q < covered(st2) implies char_at(st2.masks, 63 - q)
                == square_chars(s)[q] by {
                if q < n {
                    assert(square_chars(s)[q] == square_chars(t)[q]);
                } else {
                    assert(square_chars(s)[q] == '.');
                    assert forall|j: int| 0 <= j < 12 implies !bit_of(
                        #[trigger] st2.masks[j],
                        63 - q,
                    ) by {
                        if bit_of(st2.masks[j], 63 - q) {
                            assert(63 - q >= 64 - n);
                        }
                    }
                    lemma_char_at_none(st2.masks, 63 - q, 0);
                }
            }
        } else {
            let k0 = piece_index(c);
            assert(0 <= k0 < 12);
            assert(st.rank_sum < 8);
            let b = (63 - n) as u64;
            assert(0 <= n <= 63);
            assert(st2.masks == st.masks.update(k0, st.masks[k0] | (1u64 << b)));
            assert(covered(st2) == n + 1);
            // The bits of the updated mask.
            assert forall|i: int| #[trigger]
                bit_of(st2.masks[k0], i) == (bit_of(st.masks[k0], i) || i == b as int) by {
                lemma_bit_of_set(st.masks[k0], b, i);
            }
            // Well-formedness: set bits stay at or above the new cursor.
            assert forall|k: int, i: int|
                0 <= k < 12 && #[trigger] bit_of(st2.masks[k], i) implies i >= 64 - covered(
                st2,
            ) by {
                if k != k0 {
                    assert(st2.masks[k] == st.masks[k]);
                }
            }
            // Disjointness is preserved: no other mask holds the new bit.
            assert forall|j: int| 0 <= j < 12 && j != k0 implies (#[trigger] st.masks[j]) & (1u64
                << b) == 0 by {
                assert(!bit_of(st.masks[j], b as int));
                lemma_unset_bit_and(st.masks[j], b);
            }
            assert forall|k1: int, k2: int|
                0 <= k1 < 12 && 0 <= k2 < 12 && k1 != k2 implies #[trigger] (st2.masks[k1]
                & st2.masks[k2]) == 0 by {
                if k1 == k0 {
                    lemma_or_preserves_disjoint(st.masks[k0], st.masks[k2], 1u64 << b);
                } else if k2 == k0 {
                    lemma_or_preserves_disjoint(st.masks[k0], st.masks[k1], 1u64 << b);
                } else {
                    assert(st.masks[k1] & st.masks[k2] == 0);
                }
            }
            // The covered squares still show the described characters.
            assert forall|q: int|
                #![trigger square_chars(s)[q]]
                0 <= q < covered(st2) implies char_at(st2.masks, 63 - q)
                == square_chars(s)[q] by {
                if q < n {
                    assert(square_chars(s)[q] == square_chars(t)[q]);
                    assert forall|j: int| 0 <= j < 12 implies bit_of(#[trigger] st2.masks[j], 63 - q)
                        == bit_of(st.masks[j], 63 - q) by {
                        if j == k0 {
                            assert(63 - q != b as int);
                        }
                    }
                    lemma_char_at_congruence(st2.masks, st.masks, 63 - q, 0);
                } else {
                    assert(q == n);
                    assert(square_chars(s)[q] == c);
                    assert(bit_of(st2.masks[k0], b as int));
                    assert forall|j: int| 0 <= j < k0 implies !bit_of(
                        #[trigger] st2.masks[j],
                        b as int,
                    ) by {
                        assert(st2.masks[j] == st.masks[j]);
                        if bit_of(st.masks[j], b as int) {
                            assert(b as int >= 64 - n);
                        }
                    }
                    lemma_char_at_hit(st2.masks, b as int, 0, k0);
                    lemma_piece_letters(c, k0);
                }
            }
        }
    }
}

/// Once a scan has failed, every longer prefix fails the same way.
pub proof fn lemma_place_fold_extends(s: Seq<char>, i: int)
    requires
        0 <= i <= s.len(),
        !(place_fold(s.take(i)) is Good),
    ensures
        place_fold(s) == place_fold(s.take(i)),
    decreases s.len() - i,
{
    if i < s.len() {
        assert(s.take(i + 1).drop_last() =~= s.take(i));
        assert(s.take(i + 1).len() == i + 1);
        lemma_place_fold_extends(s, i + 1);
    } else {
        assert(s.take(i) =~= s);
    }
}

/// A complete placement field covers all sixty-four squares with
/// pairwise disjoint masks that show exactly the described square
/// characters: the character at scan position `q` stands at bit
/// `63 - q`.
pub proof fn lemma_placement_masks(s: Seq<char>)
    requires
        placement_of(s) is Masks,
    ensures
        placement_of(s)->Masks_0.len() == 12,
        masks_disjoint(placement_of(s)->Masks_0),
        square_chars(s).len() == 64,
        forall|q: int|
            #![trigger square_chars(s)[q]]
            0 <= q < 64 ==> char_at(placement_of(s)->Masks_0, 63 - q) == square_chars(s)[q],
{
    lemma_place_fold_good(s);
}

/// Parses the piece placement field into the twelve occupancy masks.
pub fn parse_placement(field: &str) -> (r: Result<[u64; 12], ParseError>)
    ensures
        match r {
            Ok(m) => placement_of(field@) == Placement::Masks(m@),
            Err(e) => {
                ||| (e matches ParseError::MalformedRank(t) && placement_of(field@)
                    is BadRank && t@ == field@)
                ||| (e matches ParseError::InvalidPieceChar(t) && placement_of(field@)
                    is BadChar && t@ == field@)
            },
        },
{
    let n = field.unicode_len();
    let mut masks: [u64; 12] = [0u64; 12];
    let mut ranks_done: usize = 0;
    let mut rank_sum: usize = 0;
    let mut i: usize = 0;
    proof {
        assert(masks@ =~= place_start().masks);
        assert(field@.take(0) =~= Seq::<char>::empty());
        assert(place_fold(field@.take(0)) == PlaceScan::Good(place_start()));
        assert(PlaceState { masks: masks@, ranks_done: 0int, rank_sum: 0int } == place_start());
    }
    while i < n
        invariant
            i <= n,
            n == field@.len(),
            ranks_done <= 7,
            rank_sum <= 8,
            place_fold(field@.take(i as int)) == PlaceScan::Good(
                PlaceState {
                    masks: masks@,
                    ranks_done: ranks_done as int,
                    rank_sum: rank_sum as int,
                },
            ),
        decreases n - i,
    {
        let c = field.get_char(i);
        let ghost pre = field@.take(i as int);
        let ghost stv = PlaceState {
            masks: masks@,
            ranks_done: ranks_done as int,
            rank_sum: rank_sum as int,
        };
        proof {
            assert(field@.take(i as int + 1).drop_last() =~= pre);
            assert(field@.take(i as int + 1).last() == c);
            assert(place_fold(field@.take(i as int + 1)) == place_step(stv, c));
        }
        if c == '/' {
            if !(rank_sum == 8 && ranks_done < 7) {
                proof {
                    lemma_place_fold_extends(field@, i as int + 1);
                }
                return Err(ParseError::MalformedRank(field.to_owned()));
            }
            ranks_done = ranks_done + 1;
            rank_sum = 0;
        } else if let Some(d) = placement_digit_of(c) {
            if rank_sum + d > 8 {
                proof {
                    lemma_place_fold_extends(field@, i as int + 1);
                }
                return Err(ParseError::MalformedRank(field.to_owned()));
            }
            rank_sum = rank_sum + d;
        } else if let Some(k) = piece_index_of(c) {
            if rank_sum >= 8 {
                proof {
                    lemma_place_fold_extends(field@, i as int + 1);
                }
                return Err(ParseError::MalformedRank(field.to_owned()));
            }
            let bit = 63 - (ranks_done * 8 + rank_sum);
            masks[k] = masks[k] | (1u64 << (bit as u64));
            rank_sum = rank_sum + 1;
            proof {
                assert(bit as int == 63 - covered(stv));
                assert(masks@ =~= stv.masks.update(
                    k as int,
                    stv.masks[k as int] | (1u64 << (bit as u64)),
                ));
            }
        } else {
            proof {
                lemma_place_fold_extends(field@, i as int + 1);
            }
            return Err(ParseError::InvalidPieceChar(field.to_owned()));
        }
        i = i + 1;
        proof {
            assert(place_fold(field@.take(i as int)) == PlaceScan::Good(
                PlaceState {
                    masks: masks@,
                    ranks_done: ranks_done as int,
                    rank_sum: rank_sum as int,
                },
            ));
        }
    }
    proof {
        assert(field@.take(n as int) =~= field@);
    }
    if ranks_done == 7 && rank_sum == 8 {
        Ok(masks)
    } else {
        Err(ParseError::MalformedRank(field.to_owned()))
    }
}

} // verus!
