//! Positions in a document, and the two ways a user names one: a
//! `file:line:column` suffix on a path, and the text typed into the
//! "Go to line" box.
use vstd::prelude::*;

use crate::text::{
    chars_of, decimal, digits_value, find_char_exec, find_char_from, is_digit,
    lemma_find_char_from_bounds, string_of, subseq,
};

verus! {

/// A logical position: column `x` and line `y`, both counted from 0.
#[derive(Debug, Clone, Copy, PartialEq, Eq, Structural)]
pub struct Point {
    pub x: isize,
    pub y: isize,
}

impl Default for Point {
    /// The start of a document.
    fn default() -> (r: Point)
        ensures
            r == (Point { x: 0, y: 0 }),
    {
        Point { x: 0, y: 0 }
    }
}

/// An ASCII digit byte.
pub open spec fn is_digit_byte(b: u8) -> bool {
    0x30 <= b <= 0x39
}

/// The value of the digit bytes `s`.
pub open spec fn bytes_value(s: Seq<u8>) -> nat
    decreases s.len(),
{
    if s.len() == 0 {
        0
    } else {
        bytes_value(s.drop_last()) * 10 + (s.last() - 0x30) as nat
    }
}

/// A coordinate written in decimal: at least one digit, digits only, and a
/// value that fits in `isize`.
pub open spec fn coord_value(s: Seq<u8>) -> Option<int> {
    if s.len() == 0 {
        None
    } else if exists|i: int| 0 <= i < s.len() && !is_digit_byte(#[trigger] s[i]) {
        None
    } else if bytes_value(s) > isize::MAX {
        None
    } else {
        Some(bytes_value(s) as int)
    }
}

/// The last colon before index `off`.
pub open spec fn last_colon(b: Seq<u8>, off: int) -> Option<int>
    decreases off,
{
    if off <= 0 {
        None
    } else if b[off - 1] == 0x3a {
        Some(off - 1)
    } else {
        last_colon(b, off - 1)
    }
}

/// A line or column number from the user, counted from 1, as an index from
/// 0; 0 stays 0.
pub open spec fn from_one(n: int) -> int {
    if n - 1 < 0 {
        0
    } else {
        n - 1
    }
}

/// What `file:line:column` (or `file:line`) names: the length of the file
/// name and the position. A name that would be empty, or a suffix that is
/// not a number, leaves the whole text as the file name and no position.
pub open spec fn filename_goto(b: Seq<u8>) -> (int, Option<Point>) {
    match last_colon(b, b.len() as int) {
        Some(colend) if colend > 0 => match coord_value(b.subrange(colend + 1, b.len() as int)) {
            None => (b.len() as int, None),
            Some(last) => {
                let line_only = (colend, Some(Point { x: 0, y: from_one(last) as isize }));
                match last_colon(b, colend) {
                    Some(colbeg) => if colbeg != 0 {
                        match coord_value(b.subrange(colbeg + 1, colend)) {
                            Some(first) => (
                                colbeg,
                                Some(
                                    Point {
                                        x: from_one(last) as isize,
                                        y: from_one(first) as isize,
                                    },
                                ),
                            ),
                            None => line_only,
                        }
                    } else {
                        line_only
                    },
                    None => line_only,
                }
            },
        },
        _ => (b.len() as int, None),
    }
}

proof fn lemma_last_colon_bounds(b: Seq<u8>, off: int)
    requires
        off <= b.len(),
    ensures
        last_colon(b, off) matches Some(k) ==> 0 <= k < off && b[k] == 0x3a,
    decreases off,
{
    if off > 0 && b[off - 1] != 0x3a {
        lemma_last_colon_bounds(b, off - 1);
    }
}

fn last_colon_exec(b: &[u8], off: usize) -> (r: Option<usize>)
    requires
        off <= b@.len(),
    ensures
        match r {
            Some(k) => last_colon(b@, off as int) == Some(k as int),
            None => last_colon(b@, off as int) is None,
        },
{
    let mut i = off;
    while i > 0
        invariant
            i <= off <= b@.len(),
            last_colon(b@, off as int) == last_colon(b@, i as int),
        decreases i,
    {
        if b[i - 1] == 0x3a {
            return Some(i - 1);
        }
        i = i - 1;
    }
    None
}

/// The coordinate written in `b[from..to]`, or `None`.
fn parse_coord(b: &[u8], from: usize, to: usize) -> (r: Option<isize>)
    requires
        from <= to <= b@.len(),
    ensures
        match r {
            Some(v) => coord_value(b@.subrange(from as int, to as int)) == Some(v as int),
            None => coord_value(b@.subrange(from as int, to as int)) is None,
        },
{
    let ghost s = b@.subrange(from as int, to as int);
    if from == to {
        return None;
    }
    let mut num: isize = 0;
    let mut i = from;
    while i < to
        invariant
            from <= i <= to <= b@.len(),
            s == b@.subrange(from as int, to as int),
            forall|k: int| from <= k < i ==> is_digit_byte(#[trigger] b@[k]),
            num == bytes_value(b@.subrange(from as int, i as int)),
        decreases to - i,
    {
        let c = b[i];
        if !(0x30 <= c && c <= 0x39) {
            assert(!is_digit_byte(s[i - from]));
            return None;
        }
        let digit = (c - 0x30) as isize;
        proof {
            assert(b@.subrange(from as int, i + 1).drop_last() =~= b@.subrange(from as int, i as int));
        }
        let ghost next = b@.subrange(from as int, i + 1);
        proof {
            assert(next.last() == c);
            assert(bytes_value(next) == num * 10 + digit);
        }
        let ok = match num.checked_mul(10) {
            Some(m) => match m.checked_add(digit) {
                Some(v) => {
                    num = v;
                    true
                },
                None => false,
            },
            None => false,
        };
        if !ok {
            proof {
                assert(bytes_value(next) > isize::MAX);
                lemma_bytes_value_grows(b@, from as int, i + 1, to as int);
                if exists|k: int| i + 1 <= k < to && !is_digit_byte(#[trigger] b@[k]) {
                    let k = choose|k: int| i + 1 <= k < to && !is_digit_byte(#[trigger] b@[k]);
                    assert(!is_digit_byte(s[k - from]));
                } else {
                    assert(b@.subrange(from as int, to as int) == s);
                    assert(bytes_value(s) > isize::MAX);
                }
            }
            return None;
        }
        i = i + 1;
    }
    assert forall|k: int| 0 <= k < s.len() implies is_digit_byte(#[trigger] s[k]) by {
        assert(s[k] == b@[from + k]);
    }
    Some(num)
}

/// Appending digits never makes a number smaller.
proof fn lemma_bytes_value_grows(b: Seq<u8>, from: int, i: int, to: int)
    requires
        0 <= from <= i <= to <= b.len(),
    ensures
        bytes_value(b.subrange(from, i)) <= bytes_value(b.subrange(from, to)) || exists|k: int|
            i <= k < to && !is_digit_byte(#[trigger] b[k]),
    decreases to - i,
{
    if i < to {
        lemma_bytes_value_grows(b, from, i + 1, to);
        assert(b.subrange(from, i + 1).drop_last() =~= b.subrange(from, i));
    }
}

/// Splits `file:line:column` (or `file:line`) off a path given as bytes:
/// the length of the file name, and the position named by the suffix, both
/// numbers counted from 1.
pub fn parse_filename_goto(bytes: &[u8]) -> (r: (usize, Option<Point>))
    ensures
        r.0 as int == filename_goto(bytes@).0,
        r.1 == filename_goto(bytes@).1,
{
    let n = bytes.len();
    proof {
        lemma_last_colon_bounds(bytes@, n as int);
    }
    let colend = match last_colon_exec(bytes, n) {
        Some(c) => {
            if c > 0 {
                c
            } else {
                return (n, None);
            }
        },
        None => {
            return (n, None);
        },
    };
    let last = match parse_coord(bytes, colend + 1, n) {
        Some(v) => v,
        None => {
            return (n, None);
        },
    };
    let last1: isize = if last - 1 < 0 {
        0
    } else {
        last - 1
    };
    let mut len = colend;
    let mut goto = Point { x: 0, y: last1 };
    proof {
        lemma_last_colon_bounds(bytes@, colend as int);
    }
    match last_colon_exec(bytes, colend) {
        Some(colbeg) => {
            if colbeg != 0 {
                match parse_coord(bytes, colbeg + 1, colend) {
                    Some(first) => {
                        let first1: isize = if first - 1 < 0 {
                            0
                        } else {
                            first - 1
                        };
                        len = colbeg;
                        goto = Point { x: last1, y: first1 };
                    },
                    None => {},
                }
            }
        },
        None => {},
    }
    (len, Some(goto))
}

/// `std::num::ParseIntError`, the error of parsing an integer.
#[verifier::external_type_specification]
#[verifier::external_body]
pub struct ExParseIntError(std::num::ParseIntError);

/// The text starts with a sign.
pub open spec fn has_sign(s: Seq<char>) -> bool {
    s.len() > 0 && (s[0] == '+' || s[0] == '-')
}

/// The text after the sign, if there is one.
pub open spec fn unsigned_part(s: Seq<char>) -> Seq<char> {
    if has_sign(s) {
        s.drop_first()
    } else {
        s
    }
}

/// An integer as `str::parse` reads it: an optional `+` or `-`, then one or
/// more ASCII digits and nothing else, with a value in range of `isize`.
pub open spec fn isize_text(s: Seq<char>) -> Option<int> {
    let signed = has_sign(s);
    let d = unsigned_part(s);
    let v = if signed && s[0] == '-' {
        -digits_value(d, 0, d.len() as int)
    } else {
        digits_value(d, 0, d.len() as int) as int
    };
    if d.len() == 0 {
        None
    } else if exists|i: int| 0 <= i < d.len() && !is_digit(#[trigger] d[i]) {
        None
    } else if v < isize::MIN || v > isize::MAX {
        None
    } else {
        Some(v)
    }
}

/// `str::parse::<isize>`: the number written in `s` (an optional sign, then
/// decimal digits only, in range of `isize`), or an error.
#[verifier::external_body]
fn parse_isize(s: &str) -> (r: Result<isize, std::num::ParseIntError>)
    ensures
        match r {
            Ok(v) => isize_text(s@) == Some(v as int),
            Err(_) => isize_text(s@) is None,
        },
{
    s.parse::<isize>()
}

/// `n - 1`, stopping at the smallest `isize`.
pub open spec fn minus_one(n: int) -> int {
    if n == isize::MIN {
        n
    } else {
        n - 1
    }
}

/// The text before the first colon and the text after it; the whole text
/// and `0` when there is no colon.
pub open spec fn goto_parts(line: Seq<char>) -> (Seq<char>, Seq<char>) {
    match find_char_from(line, ':', 0) {
        Some(k) => (line.subrange(0, k), line.subrange(k + 1, line.len() as int)),
        None => (line, seq!['0']),
    }
}

/// What the "Go to line" box accepts: `line` or `line:column`, numbers
/// counted from 1, as a position counted from 0.
pub open spec fn goto_target(line: Seq<char>) -> Option<Point> {
    let (ys, xs) = goto_parts(line);
    match (isize_text(xs), isize_text(ys)) {
        (Some(x), Some(y)) => Some(Point { x: minus_one(x) as isize, y: minus_one(y) as isize }),
        _ => None,
    }
}

fn minus_one_exec(n: isize) -> (r: isize)
    ensures
        r == minus_one(n as int),
{
    if n == isize::MIN {
        n
    } else {
        n - 1
    }
}

/// The position typed into the "Go to line" box: `line` or `line:column`,
/// counted from 1; an error when a part is not a number.
pub fn validate_goto_point(line: &str) -> (r: Result<Point, std::num::ParseIntError>)
    ensures
        match r {
            Ok(p) => goto_target(line@) == Some(p),
            Err(_) => goto_target(line@) is None,
        },
{
    let v = chars_of(line);
    proof {
        lemma_find_char_from_bounds(v@, ':', 0);
    }
    let (ys, xs) = match find_char_exec(v.as_slice(), ':', 0) {
        Some(k) => {
            assert(k < v@.len());
            let before = subseq(v.as_slice(), 0, k);
            let after = subseq(v.as_slice(), k + 1, v.len());
            (string_of(before.as_slice()), string_of(after.as_slice()))
        },
        None => (string_of(v.as_slice()), String::from_str("0")),
    };
    proof {
        reveal_strlit("0");
    }
    assert(ys@ == goto_parts(line@).0 && xs@ == goto_parts(line@).1);
    let x = match parse_isize(xs.as_str()) {
        Ok(x) => x,
        Err(e) => {
            return Err(e);
        },
    };
    let y = match parse_isize(ys.as_str()) {
        Ok(y) => y,
        Err(e) => {
            return Err(e);
        },
    };
    Ok(Point { x: minus_one_exec(x), y: minus_one_exec(y) })
}

} // verus!
