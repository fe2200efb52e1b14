//! Reading a move such as `"2 3"`: two whitespace-separated decimal
//! numbers, each between 1 and 3.

use vstd::prelude::*;
use vstd::string::StrSliceExecFns;

verus! {

/// Unicode's `White_Space` characters, the ones that separate tokens.
pub open spec fn is_space(c: char) -> bool {
    ||| c == ' '
    ||| c == '\t'
    ||| c == '\n'
    ||| c == '\u{0B}'
    ||| c == '\u{0C}'
    ||| c == '\r'
    ||| c == '\u{85}'
    ||| c == '\u{A0}'
    ||| c == '\u{1680}'
    ||| ('\u{2000}' as u32 <= c as u32 && c as u32 <= '\u{200A}' as u32)
    ||| c == '\u{2028}'
    ||| c == '\u{2029}'
    ||| c == '\u{202F}'
    ||| c == '\u{205F}'
    ||| c == '\u{3000}'
}

pub open spec fn is_digit(c: char) -> bool {
    '0' as u32 <= c as u32 && c as u32 <= '9' as u32
}

pub open spec fn digit_value(c: char) -> int {
    c as u32 - '0' as u32
}

/// The value of a string of decimal digits.
pub open spec fn number_value(t: Seq<char>) -> int
    decreases t.len(),
{
    if t.len() == 0 {
        0
    } else {
        10 * number_value(t.drop_last()) + digit_value(t.last())
    }
}

/// A token that names a row or a column: unsigned decimal digits whose
/// value lies in 1..=3.
pub open spec fn is_coordinate(t: Seq<char>) -> bool {
    &&& t.len() > 0
    &&& forall|i: int| 0 <= i < t.len() ==> is_digit(#[trigger] t[i])
    &&& 1 <= number_value(t) <= 3
}

pub open spec fn all_space(s: Seq<char>, lo: int, hi: int) -> bool {
    forall|i: int| lo <= i < hi ==> is_space(#[trigger] s[i])
}

/// `s` is whitespace, a coordinate `s[a0..a1]`, at least one whitespace
/// character, a coordinate `s[b0..b1]`, and whitespace.
pub open spec fn splits_into_coords(s: Seq<char>, a0: int, a1: int, b0: int, b1: int) -> bool {
    &&& 0 <= a0 < a1 < b0 < b1 <= s.len()
    &&& all_space(s, 0, a0)
    &&& all_space(s, a1, b0)
    &&& all_space(s, b1, s.len() as int)
    &&& is_coordinate(s.subrange(a0, a1))
    &&& is_coordinate(s.subrange(b0, b1))
}

/// Exactly two whitespace-separated tokens, each a coordinate.
pub open spec fn coords_valid(s: Seq<char>) -> bool {
    exists|a0: int, a1: int, b0: int, b1: int| splits_into_coords(s, a0, a1, b0, b1)
}

/// The (row, column) that a valid input names.
pub open spec fn coords_of(s: Seq<char>) -> (int, int) {
    let (a0, a1, b0, b1) = choose|a0: int, a1: int, b0: int, b1: int|
        splits_into_coords(s, a0, a1, b0, b1);
    (number_value(s.subrange(a0, a1)), number_value(s.subrange(b0, b1)))
}

fn is_space_char(c: char) -> (r: bool)
    ensures
        r == is_space(c),
{
    c == ' ' || c == '\t' || c == '\n' || c == '\u{0B}' || c == '\u{0C}' || c == '\r' || c
        == '\u{85}' || c == '\u{A0}' || c == '\u{1680}' || ('\u{2000}' as u32 <= c as u32
        && c as u32 <= '\u{200A}' as u32) || c == '\u{2028}' || c == '\u{2029}' || c
        == '\u{202F}' || c == '\u{205F}' || c == '\u{3000}'
}

/// The first position at or after `from` that does not hold whitespace.
fn skip_spaces(s: &str, n: usize, from: usize) -> (p: usize)
    requires
        n == s@.len(),
        from <= n,
    ensures
        from <= p <= n,
        all_space(s@, from as int, p as int),
        p < n ==> !is_space(s@[p as int]),
{
    let mut p: usize = from;
    while p < n && is_space_char(s.get_char(p))
        invariant
            n == s@.len(),
            from <= p <= n,
            all_space(s@, from as int, p as int),
        decreases n - p,
    {
        p = p + 1;
    }
    p
}

/// The first position at or after `from` that holds whitespace.
fn skip_token(s: &str, n: usize, from: usize) -> (p: usize)
    requires
        n == s@.len(),
        from <= n,
    ensures
        from <= p <= n,
        forall|i: int| from <= i < p ==> !is_space(#[trigger] s@[i]),
        p < n ==> is_space(s@[p as int]),
{
    let mut p: usize = from;
    while p < n && !is_space_char(s.get_char(p))
        invariant
            n == s@.len(),
            from <= p <= n,
            forall|i: int| from <= i < p ==> !is_space(#[trigger] s@[i]),
        decreases n - p,
    {
        p = p + 1;
    }
    p
}

/// The value of the coordinate `s[lo..hi]`, or `None` when that token is
/// not one.
fn read_coordinate(s: &str, n: usize, lo: usize, hi: usize) -> (r: Option<usize>)
    requires
        n == s@.len(),
        lo <= hi <= n,
    ensures
        r is Some <==> is_coordinate(s@.subrange(lo as int, hi as int)),
        r is Some ==> r->0 == number_value(s@.subrange(lo as int, hi as int)),
{
    if lo == hi {
        return None;
    }
    // `v` is the value read so far, or 4 once that value passed 3.
    let mut v: usize = 0;
    let mut i: usize = lo;
    while i < hi
        invariant
            n == s@.len(),
            lo <= i <= hi <= n,
            forall|j: int| lo <= j < i ==> is_digit(#[trigger] s@[j]),
            number_value(s@.subrange(lo as int, i as int)) >= 0,
            number_value(s@.subrange(lo as int, i as int)) <= 3 ==> v == number_value(
                s@.subrange(lo as int, i as int),
            ),
            number_value(s@.subrange(lo as int, i as int)) > 3 ==> v == 4,
        decreases hi - i,
    {
        let c = s.get_char(i);
        if !('0' as u32 <= c as u32 && c as u32 <= '9' as u32) {
            proof {
                let t = s@.subrange(lo as int, hi as int);
                assert(t[i - lo] == c);
            }
            return None;
        }
        let d = (c as u32 - '0' as u32) as usize;
        proof {
            let t = s@.subrange(lo as int, i + 1);
            assert(t.drop_last() =~= s@.subrange(lo as int, i as int));
            assert(t.last() == c);
        }
        if v <= 3 {
            v = 10 * v + d;
            if v > 3 {
                v = 4;
            }
        }
        i = i + 1;
    }
    proof {
        let t = s@.subrange(lo as int, hi as int);
        assert forall|j: int| 0 <= j < t.len() implies is_digit(#[trigger] t[j]) by {
            assert(t[j] == s@[lo + j]);
        }
    }
    if 1 <= v && v <= 3 {
        Some(v)
    } else {
        None
    }
}

/// The row and column that `coords` names, when it is a valid move.
pub fn parse_coords(coords: &str) -> (r: Option<(usize, usize)>)
    ensures
        r is Some <==> coords_valid(coords@),
        r matches Some((row, col)) ==> row == coords_of(coords@).0 && col == coords_of(coords@).1,
{
    let ghost s = coords@;
    let n = coords.unicode_len();
    let a0 = skip_spaces(coords, n, 0);
    let a1 = skip_token(coords, n, a0);
    let b0 = skip_spaces(coords, n, a1);
    let b1 = skip_token(coords, n, b0);
    let e = skip_spaces(coords, n, b1);
    proof {
        if coords_valid(s) {
            let (c0, c1, d0, d1) = choose|c0: int, c1: int, d0: int, d1: int|
                splits_into_coords(s, c0, c1, d0, d1);
            lemma_split_is_scan(s, a0 as int, a1 as int, b0 as int, b1 as int, e as int, c0, c1, d0, d1);
        }
    }
    if e != n || a0 == a1 || b0 == b1 {
        return None;
    }
    let x = read_coordinate(coords, n, a0, a1);
    let y = read_coordinate(coords, n, b0, b1);
    match (x, y) {
        (Some(row), Some(col)) => {
            proof {
                assert(splits_into_coords(s, a0 as int, a1 as int, b0 as int, b1 as int));
            }
            Some((row, col))
        },
        _ => None,
    }
}

/// Whether `coords` is a valid move: exactly two whitespace-separated
/// unsigned decimal numbers, each between 1 and 3. Anything else (another
/// number of tokens, a sign, a letter, a value out of range) is invalid.
pub fn are_coords_correct(coords: &str) -> (r: bool)
    ensures
        r == coords_valid(coords@),
{
    match parse_coords(coords) {
        Some(_) => true,
        None => false,
    }
}

/// A split into coordinates is the one that scanning for whitespace finds.
proof fn lemma_split_is_scan(
    s: Seq<char>,
    a0: int,
    a1: int,
    b0: int,
    b1: int,
    e: int,
    c0: int,
    c1: int,
    d0: int,
    d1: int,
)
    requires
        splits_into_coords(s, c0, c1, d0, d1),
        0 <= a0 <= a1 <= b0 <= b1 <= e <= s.len(),
        all_space(s, 0, a0),
        a0 < s.len() ==> !is_space(s[a0]),
        forall|i: int| a0 <= i < a1 ==> !is_space(#[trigger] s[i]),
        a1 < s.len() ==> is_space(s[a1]),
        all_space(s, a1, b0),
        b0 < s.len() ==> !is_space(s[b0]),
        forall|i: int| b0 <= i < b1 ==> !is_space(#[trigger] s[i]),
        b1 < s.len() ==> is_space(s[b1]),
        all_space(s, b1, e),
        e < s.len() ==> !is_space(s[e]),
    ensures
        a0 == c0 && a1 == c1 && b0 == d0 && b1 == d1 && e == s.len(),
{
    let t = s.subrange(c0, c1);
    let u = s.subrange(d0, d1);
    assert forall|i: int| c0 <= i < c1 implies !is_space(#[trigger] s[i]) by {
        assert(t[i - c0] == s[i]);
        assert(is_digit(t[i - c0]));
    }
    assert forall|i: int| d0 <= i < d1 implies !is_space(#[trigger] s[i]) by {
        assert(u[i - d0] == s[i]);
        assert(is_digit(u[i - d0]));
    }
    if a0 < c0 {
        assert(is_space(s[a0]));
    }
    if c0 < a0 {
        assert(is_space(s[c0]));
    }
    if a1 < c1 {
        assert(!is_space(s[a1]));
    }
    if c1 < a1 {
        assert(is_space(s[c1]));
    }
    if b0 < d0 {
        assert(is_space(s[b0]));
    }
    if d0 < b0 {
        assert(is_space(s[d0]));
    }
    if b1 < d1 {
        assert(!is_space(s[b1]));
    }
    if d1 < b1 {
        assert(is_space(s[d1]));
    }
    if e < s.len() {
        assert(is_space(s[e]));
    }
}

} // verus!
