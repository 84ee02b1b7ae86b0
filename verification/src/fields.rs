//! Splitting a FEN string into its six fields, and the parsers of the
//! simple fields: side to move, castling rights, and the two clocks.

use crate::piece::Side;
use vstd::arithmetic::div_mod::lemma_fundamental_div_mod;
use vstd::arithmetic::mul::lemma_mul_inequality;
use vstd::prelude::*;

verus! {

/// An ASCII whitespace character: the field separators of a FEN
/// string.
pub open spec fn is_ws(c: char) -> bool {
    c == ' ' || c == '\t' || c == '\n' || c == '\r' || c == '\x0c'
}

/// The split state: the fields already closed and the token being
/// read.
pub struct SplitState {
    pub done: Seq<Seq<char>>,
    pub cur: Seq<char>,
}

/// One character of the split: whitespace closes the current token, if
/// any; any other character extends it.
pub open spec fn split_step(st: SplitState, c: char) -> SplitState {
    if is_ws(c) {
        if st.cur.len() == 0 {
            st
        } else {
            SplitState { done: st.done.push(st.cur), cur: Seq::empty() }
        }
    } else {
        SplitState { done: st.done, cur: st.cur.push(c) }
    }
}

pub open spec fn split_fold(s: Seq<char>) -> SplitState
    decreases s.len(),
{
    if s.len() == 0 {
        SplitState { done: Seq::empty(), cur: Seq::empty() }
    } else {
        split_step(split_fold(s.drop_last()), s.last())
    }
}

/// The fields of a string: its maximal runs of non-whitespace
/// characters, in order.
pub open spec fn fields_of(s: Seq<char>) -> Seq<Seq<char>> {
    let st = split_fold(s);
    if st.cur.len() == 0 {
        st.done
    } else {
        st.done.push(st.cur)
    }
}

/// Splits a string on runs of ASCII whitespace. The fields come back
/// as character bounds: field `j` is the text from `r[j].0` inclusive
/// to `r[j].1` exclusive.
pub fn split_fields(s: &str) -> (r: Vec<(usize, usize)>)
    ensures
        r@.len() == fields_of(s@).len(),
        forall|j: int|
            0 <= j < r@.len() ==> {
                &&& (#[trigger] r@[j]).0 <= r@[j].1 <= s@.len()
                &&& s@.subrange(r@[j].0 as int, r@[j].1 as int) == fields_of(s@)[j]
            },
{
    let n = s.unicode_len();
    let mut fields: Vec<(usize, usize)> = Vec::new();
    let mut start: usize = 0;
    let mut in_token: bool = false;
    let mut i: usize = 0;
    proof {
        assert(s@.take(0) =~= Seq::<char>::empty());
    }
    while i < n
        invariant
            i <= n,
            n == s@.len(),
            fields@.len() == split_fold(s@.take(i as int)).done.len(),
            forall|j: int|
                0 <= j < fields@.len() ==> {
                    &&& (#[trigger] fields@[j]).0 <= fields@[j].1 <= i
                    &&& s@.subrange(fields@[j].0 as int, fields@[j].1 as int) == split_fold(
                        s@.take(i as int),
                    ).done[j]
                },
            !in_token ==> split_fold(s@.take(i as int)).cur.len() == 0,
            in_token ==> {
                &&& start < i
                &&& split_fold(s@.take(i as int)).cur == s@.subrange(start as int, i as int)
            },
        decreases n - i,
    {
        let c = s.get_char(i);
        let ghost pre = split_fold(s@.take(i as int));
        proof {
            assert(s@.take(i as int + 1).drop_last() =~= s@.take(i as int));
            assert(s@.take(i as int + 1).last() == c);
            assert(split_fold(s@.take(i as int + 1)) == split_step(pre, c));
        }
        if c == ' ' || c == '\t' || c == '\n' || c == '\r' || c == '\x0c' {
            if in_token {
                fields.push((start, i));
                in_token = false;
            }
        } else {
            if !in_token {
                start = i;
                in_token = true;
                proof {
                    assert(s@.subrange(i as int, i as int + 1) =~= pre.cur.push(c));
                }
            } else {
                proof {
                    assert(s@.subrange(start as int, i as int + 1) =~= s@.subrange(
                        start as int,
                        i as int,
                    ).push(c));
                }
            }
        }
        i = i + 1;
    }
    proof {
        assert(s@.take(n as int) =~= s@);
    }
    if in_token {
        fields.push((start, n));
    }
    fields
}

/// The meaning of the side-to-move field: exactly `w` or `b`.
pub open spec fn side_of(s: Seq<char>) -> Option<Side> {
    if s == seq!['w'] {
        Some(Side::White)
    } else if s == seq!['b'] {
        Some(Side::Black)
    } else {
        None
    }
}

/// Parses the side-to-move field.
pub fn parse_side(field: &str) -> (r: Option<Side>)
    ensures
        r == side_of(field@),
{
    let n = field.unicode_len();
    if n == 1 {
        let c = field.get_char(0);
        if c == 'w' {
            proof {
                assert(field@ =~= seq!['w']);
            }
            return Some(Side::White);
        }
        if c == 'b' {
            proof {
                assert(field@ =~= seq!['b']);
            }
            return Some(Side::Black);
        }
    }
    proof {
        assert(field@ != seq!['w']) by {
            if field@ == seq!['w'] {
                assert(field@.len() == 1);
                assert(field@[0] == 'w');
            }
        }
        assert(field@ != seq!['b']) by {
            if field@ == seq!['b'] {
                assert(field@.len() == 1);
                assert(field@[0] == 'b');
            }
        }
    }
    None
}

/// The canonical order of a castling letter: `K`, `Q`, `k`, `q` stand
/// at 0 through 3; any other character at -1.
pub open spec fn castle_index(c: char) -> int {
    if c == 'K' {
        0
    } else if c == 'Q' {
        1
    } else if c == 'k' {
        2
    } else if c == 'q' {
        3
    } else {
        -1
    }
}

/// A valid castling field: the no-rights marker `-`, or a non-empty
/// selection of the four flags with strictly growing order — that is,
/// in canonical order `KQkq` and without repeats.
pub open spec fn valid_castling(s: Seq<char>) -> bool {
    ||| s == seq!['-']
    ||| {
        &&& s.len() >= 1
        &&& (forall|i: int| 0 <= i < s.len() ==> castle_index(#[trigger] s[i]) >= 0)
        &&& (forall|i: int, j: int|
            #![trigger s[i], s[j]]
            0 <= i < j < s.len() ==> castle_index(s[i]) < castle_index(s[j]))
    }
}

/// The canonical order of a castling letter, as an executable value;
/// `None` for a character that is no castling flag.
fn castle_index_of(c: char) -> (r: Option<usize>)
    ensures
        r is Some <==> castle_index(c) >= 0,
        r is Some ==> r->0 as int == castle_index(c) && r->0 < 4,
{
    match c {
        'K' => Some(0),
        'Q' => Some(1),
        'k' => Some(2),
        'q' => Some(3),
        _ => None,
    }
}

/// Decides whether the castling field is valid.
pub fn parse_castling(field: &str) -> (r: bool)
    ensures
        r == valid_castling(field@),
{
    let n = field.unicode_len();
    if n == 1 && field.get_char(0) == '-' {
        proof {
            assert(field@ =~= seq!['-']);
        }
        return true;
    }
    proof {
        assert(field@ != seq!['-']) by {
            if field@ == seq!['-'] {
                assert(field@.len() == 1);
                assert(field@[0] == '-');
            }
        }
    }
    if n == 0 {
        return false;
    }
    let mut prev: i64 = -1;
    let mut i: usize = 0;
    while i < n
        invariant
            i <= n,
            n == field@.len(),
            n >= 1,
            field@ != seq!['-'],
            forall|j: int| 0 <= j < i ==> castle_index(#[trigger] field@[j]) >= 0,
            forall|j1: int, j2: int|
                #![trigger field@[j1], field@[j2]]
                0 <= j1 < j2 < i ==> castle_index(field@[j1]) < castle_index(field@[j2]),
            i > 0 ==> prev == castle_index(field@[i - 1]),
            i == 0 ==> prev == -1,
            prev <= 3,
        decreases n - i,
    {
        let c = field.get_char(i);
        match castle_index_of(c) {
            None => {
                return false;
            },
            Some(ci) => {
                if (ci as i64) <= prev {
                    return false;
                }
                prev = ci as i64;
            },
        }
        i = i + 1;
    }
    true
}

/// The decimal value of a digit character, or -1 for any other
/// character.
pub open spec fn digit_index(c: char) -> int {
    if c == '0' {
        0
    } else if c == '1' {
        1
    } else if c == '2' {
        2
    } else if c == '3' {
        3
    } else if c == '4' {
        4
    } else if c == '5' {
        5
    } else if c == '6' {
        6
    } else if c == '7' {
        7
    } else if c == '8' {
        8
    } else if c == '9' {
        9
    } else {
        -1
    }
}

/// The numeric value of digit text, most significant digit first.
pub open spec fn digits_val(s: Seq<char>) -> int
    decreases s.len(),
{
    if s.len() == 0 {
        0
    } else {
        digits_val(s.drop_last()) * 10 + digit_index(s.last())
    }
}

/// A valid clock field: one or more decimal digits whose value fits in
/// 64 bits.
pub open spec fn valid_clock(s: Seq<char>) -> bool {
    &&& s.len() >= 1
    &&& (forall|i: int| 0 <= i < s.len() ==> digit_index(#[trigger] s[i]) >= 0)
    &&& digits_val(s) <= u64::MAX as int
}

/// Digit text has a non-negative value.
proof fn lemma_digits_val_nonneg(s: Seq<char>)
    requires
        forall|i: int| 0 <= i < s.len() ==> digit_index(#[trigger] s[i]) >= 0,
    ensures
        digits_val(s) >= 0,
    decreases s.len(),
{
    if s.len() > 0 {
        lemma_digits_val_nonneg(s.drop_last());
    }
}

/// Extending digit text never shrinks its value.
proof fn lemma_digits_val_prefix(s: Seq<char>, i: int)
    requires
        0 <= i <= s.len(),
        forall|j: int| 0 <= j < s.len() ==> digit_index(#[trigger] s[j]) >= 0,
    ensures
        digits_val(s.take(i)) <= digits_val(s),
    decreases s.len() - i,
{
    if i < s.len() {
        assert(s.take(i + 1).drop_last() =~= s.take(i));
        assert(forall|j: int| 0 <= j < i ==> digit_index(#[trigger] s.take(i)[j]) >= 0);
        lemma_digits_val_nonneg(s.take(i));
        assert(digits_val(s.take(i + 1)) == digits_val(s.take(i)) * 10 + digit_index(s[i]));
        assert(digits_val(s.take(i)) * 10 >= digits_val(s.take(i))) by {
            lemma_mul_inequality(1, 10, digits_val(s.take(i)));
        }
        lemma_digits_val_prefix(s, i + 1);
    } else {
        assert(s.take(i) =~= s);
    }
}

/// The decimal value of a digit character, as an executable value;
/// `None` for a character that is no digit.
fn digit_of(c: char) -> (r: Option<usize>)
    ensures
        r is Some <==> digit_index(c) >= 0,
        r is Some ==> r->0 as int == digit_index(c) && r->0 < 10,
{
    match c {
        '0' => Some(0),
        '1' => Some(1),
        '2' => Some(2),
        '3' => Some(3),
        '4' => Some(4),
        '5' => Some(5),
        '6' => Some(6),
        '7' => Some(7),
        '8' => Some(8),
        '9' => Some(9),
        _ => None,
    }
}

/// Parses a clock field: its value exactly when the field is one or
/// more decimal digits whose value fits in 64 bits, `None` otherwise.
pub fn parse_clock(field: &str) -> (r: Option<u64>)
    ensures
        r is Some <==> valid_clock(field@),
        r is Some ==> r->0 as int == digits_val(field@),
{
    let n = field.unicode_len();
    if n == 0 {
        return None;
    }
    let mut acc: u64 = 0;
    let mut i: usize = 0;
    proof {
        assert(field@.take(0) =~= Seq::<char>::empty());
    }
    while i < n
        invariant
            i <= n,
            n == field@.len(),
            forall|j: int| 0 <= j < i ==> digit_index(#[trigger] field@[j]) >= 0,
            acc as int == digits_val(field@.take(i as int)),
        decreases n - i,
    {
        let c = field.get_char(i);
        proof {
            assert(field@.take(i as int + 1).drop_last() =~= field@.take(i as int));
            assert(field@.take(i as int + 1).last() == c);
        }
        let d = match digit_of(c) {
            Some(d) => d,
            None => {
                return None;
            },
        };
        let limit = (u64::MAX - (d as u64)) / 10;
        proof {
            let q = limit as int;
            let x = u64::MAX as int - d;
            lemma_fundamental_div_mod(x, 10);
            assert(x == 10 * q + x % 10);
            if acc as int <= q {
                lemma_mul_inequality(acc as int, q, 10);
                assert(acc as int * 10 <= q * 10);
            } else {
                lemma_mul_inequality(q + 1, acc as int, 10);
                assert((q + 1) * 10 <= acc as int * 10);
            }
        }
        if acc > limit {
            proof {
                // The value overflows 64 bits here, and a longer digit
                // run can only be larger, so the field is invalid.
                assert(digits_val(field@.take(i as int + 1)) > u64::MAX as int);
                if valid_clock(field@) {
                    lemma_digits_val_prefix(field@, i as int + 1);
                }
            }
            return None;
        }
        acc = acc * 10 + (d as u64);
        i = i + 1;
    }
    proof {
        assert(field@.take(n as int) =~= field@);
    }
    Some(acc)
}

} // verus!
