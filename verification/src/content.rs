//! How text and bytes are written into a log message: short content as an
//! escaped one-liner, long text with numbered lines, and bytes that are not
//! UTF-8 as an escaped line or a hex dump.
use vstd::prelude::*;

use crate::logging::{escape_text, escape_text_into, escape_text_spec, hex2, hex_digit, push_hex2};
use crate::utf8_len::{lemma_from_utf8_text, str_from_utf8};
use vstd::utf8::{decode_utf8, valid_utf8};
use crate::text::{
    chars_of, decimal, lemma_skip_ws_back_bounds, push_all, push_decimal, push_str,
    skip_ws_back_exec, string_of, subseq, trim_end,
};
use crate::utf8_len::{utf8_len, utf8_len_exec, utf8_width, utf8_width_exec};

verus! {

/// Below this many bytes, content is written on one line.
pub open spec fn content_threshold() -> nat {
    256
}

/// `t` cut at each line break, as `str::split('\n')` cuts it: one line more
/// than there are line breaks.
pub open spec fn split_lines(t: Seq<char>) -> Seq<Seq<char>>
    decreases t.len(),
{
    if t.len() == 0 {
        seq![Seq::empty()]
    } else {
        let r = split_lines(t.drop_last());
        if t.last() == '\n' {
            r.push(Seq::empty())
        } else {
            r.update(r.len() - 1, r.last().push(t.last()))
        }
    }
}

pub proof fn lemma_split_lines_len(t: Seq<char>)
    ensures
        split_lines(t).len() >= 1,
        split_lines(t).len() <= t.len() + 1,
    decreases t.len(),
{
    if t.len() > 0 {
        lemma_split_lines_len(t.drop_last());
    }
}

/// `n` spaces.
pub open spec fn spaces(n: nat) -> Seq<char> {
    Seq::new(n, |i: int| ' ')
}

/// `s` right-aligned in a field of `w` characters.
pub open spec fn pad_left(s: Seq<char>, w: nat) -> Seq<char> {
    if s.len() < w {
        spaces((w - s.len()) as nat) + s
    } else {
        s
    }
}

/// A line longer than 200 bytes is cut there, when a character ends at that
/// byte; shorter lines are kept whole.
pub open spec fn cuttable(e: Seq<char>) -> bool {
    utf8_len(e) > 200 ==> exists|k: int| 0 <= k <= e.len() && utf8_len(e.take(k)) == 200
}

/// Where a line longer than 200 bytes is cut.
pub open spec fn cut_index(e: Seq<char>) -> int {
    choose|k: int| 0 <= k <= e.len() && utf8_len(e.take(k)) == 200
}

/// An escaped line as it is shown: its first 200 bytes and `...` when it
/// is longer.
pub open spec fn shown_line(e: Seq<char>) -> Seq<char> {
    if utf8_len(e) > 200 {
        e.take(cut_index(e)) + "..."@
    } else {
        e
    }
}

/// One numbered line: the number right-aligned in `w` characters, a bar,
/// and the escaped line.
pub open spec fn numbered_line(n: nat, w: nat, l: Seq<char>) -> Seq<char> {
    pad_left(decimal(n), w) + "| "@ + shown_line(escape_text_spec(l)) + seq!['\n']
}

/// The numbered lines `ls`, numbered from 1.
pub open spec fn numbered_lines(ls: Seq<Seq<char>>, w: nat) -> Seq<char>
    decreases ls.len(),
{
    if ls.len() == 0 {
        Seq::empty()
    } else {
        numbered_lines(ls.drop_last(), w) + numbered_line(ls.len(), w, ls.last())
    }
}

/// The width of the line-number column: the digits of the line count, at
/// least 3.
pub open spec fn number_width(n: nat) -> nat {
    if decimal(n).len() < 3 {
        3
    } else {
        decimal(n).len()
    }
}

/// Every line of `t`, escaped, can be cut where a long line is cut.
pub open spec fn lines_cuttable(t: Seq<char>) -> bool {
    forall|i: int|
        0 <= i < split_lines(t).len() ==> cuttable(escape_text_spec(#[trigger] split_lines(t)[i]))
}

/// Long text in diff style: a header with its size in bytes and lines, then
/// each line numbered; trailing blanks trimmed.
pub open spec fn line_numbers_text(t: Seq<char>) -> Seq<char> {
    let ls = split_lines(t);
    trim_end(
        "[CONTENT: "@ + decimal(utf8_len(t)) + " bytes, "@ + decimal(ls.len()) + " lines]\n"@
            + numbered_lines(ls, number_width(ls.len())),
    )
}

proof fn lemma_utf8_len_take_mono(e: Seq<char>, i: int, j: int)
    requires
        0 <= i <= j <= e.len(),
    ensures
        utf8_len(e.take(i)) <= utf8_len(e.take(j)),
        i < j ==> utf8_len(e.take(i)) < utf8_len(e.take(j)),
    decreases j - i,
{
    if i < j {
        lemma_utf8_len_take_mono(e, i, j - 1);
        assert(e.take(j).drop_last() =~= e.take(j - 1));
    }
}

/// Appends `n` spaces.
fn push_spaces(out: &mut Vec<char>, n: usize)
    ensures
        final(out)@ == old(out)@ + spaces(n as nat),
{
    let mut i: usize = 0;
    while i < n
        invariant
            i <= n,
            out@ == old(out)@ + spaces(i as nat),
        decreases n - i,
    {
        out.push(' ');
        i = i + 1;
        assert(out@ =~= old(out)@ + spaces(i as nat));
    }
}

/// The decimal digits of `n`.
fn decimal_chars(n: u64) -> (r: Vec<char>)
    ensures
        r@ == decimal(n as nat),
{
    let mut v: Vec<char> = Vec::new();
    push_decimal(&mut v, n);
    assert(v@ =~= decimal(n as nat));
    v
}

/// Appends the escaped line `e` as it is shown.
fn push_shown_line(out: &mut Vec<char>, e: &[char])
    requires
        cuttable(e@),
    ensures
        final(out)@ == old(out)@ + shown_line(e@),
{
    let mut acc: usize = 0;
    let mut k: usize = 0;
    while k < e.len()
        invariant_except_break
            k <= e@.len(),
            acc == utf8_len(e@.take(k as int)),
            acc <= 200,
        ensures
            k <= e@.len(),
            acc == utf8_len(e@.take(k as int)),
            acc <= 200,
            k < e@.len() ==> acc + utf8_width(e@[k as int]) > 200,
        decreases e.len() - k,
    {
        let w = utf8_width_exec(e[k]);
        if acc + w > 200 {
            break;
        }
        proof {
            assert(e@.take(k + 1).drop_last() =~= e@.take(k as int));
        }
        acc = acc + w;
        k = k + 1;
    }
    if k == e.len() {
        assert(e@.take(k as int) =~= e@);
        push_all(out, e);
    } else {
        proof {
            assert(e@.take(k + 1).drop_last() =~= e@.take(k as int));
            lemma_utf8_len_take_mono(e@, k + 1, e@.len() as int);
            assert(e@.take(e@.len() as int) =~= e@);
            assert(utf8_len(e@) > 200);
            let c = choose|j: int| 0 <= j <= e@.len() && utf8_len(e@.take(j)) == 200;
            if c <= k {
                lemma_utf8_len_take_mono(e@, c, k as int);
            } else {
                lemma_utf8_len_take_mono(e@, k + 1, c);
            }
            assert(c == k);
            assert(cut_index(e@) == k);
        }
        let head = subseq(e, 0, k);
        push_all(out, head.as_slice());
        push_str(out, "...");
        assert(e@.subrange(0, k as int) =~= e@.take(k as int));
    }
}

/// Appends one numbered line.
fn push_numbered_line(out: &mut Vec<char>, n: usize, w: usize, l: &[char])
    requires
        cuttable(escape_text_spec(l@)),
    ensures
        final(out)@ == old(out)@ + numbered_line(n as nat, w as nat, l@),
{
    let d = decimal_chars(n as u64);
    if d.len() < w {
        push_spaces(out, w - d.len());
    }
    push_all(out, d.as_slice());
    push_str(out, "| ");
    let mut e: Vec<char> = Vec::new();
    escape_text_into(&mut e, l);
    assert(e@ =~= escape_text_spec(l@));
    push_shown_line(out, e.as_slice());
    out.push('\n');
    assert(final(out)@ =~= old(out)@ + numbered_line(n as nat, w as nat, l@));
}

/// Long text in diff style, with numbered lines.
pub fn format_with_line_numbers(text: &str) -> (r: String)
    requires
        utf8_len(text@) < usize::MAX,
        lines_cuttable(text@),
    ensures
        r@ == line_numbers_text(text@),
{
    let t = chars_of(text);
    let bytes = utf8_len_exec(t.as_slice());
    proof {
        lemma_utf8_len_count(t@);
    }
    // count the lines
    let mut count: usize = 1;
    let mut i: usize = 0;
    while i < t.len()
        invariant
            i <= t@.len(),
            t@ == text@,
            t@.len() <= utf8_len(text@) < usize::MAX,
            count == split_lines(t@.take(i as int)).len(),
            count <= i + 1,
        decreases t.len() - i,
    {
        proof {
            assert(t@.take(i + 1).drop_last() =~= t@.take(i as int));
            lemma_split_lines_len(t@.take(i as int));
        }
        if t[i] == '\n' {
            count = count + 1;
        }
        i = i + 1;
    }
    assert(t@.take(i as int) =~= t@);
    let cd = decimal_chars(count as u64);
    let w: usize = if cd.len() < 3 {
        3
    } else {
        cd.len()
    };
    let mut out: Vec<char> = Vec::new();
    push_str(&mut out, "[CONTENT: ");
    push_decimal(&mut out, bytes as u64);
    push_str(&mut out, " bytes, ");
    push_all(&mut out, cd.as_slice());
    push_str(&mut out, " lines]\n");
    let ghost head = out@;
    // the numbered lines
    let mut cur: Vec<char> = Vec::new();
    let mut no: usize = 1;
    let mut j: usize = 0;
    proof {
        assert(t@.take(0) =~= Seq::<char>::empty());
        lemma_split_lines_len(t@);
        assert(split_lines(t@.take(0)).drop_last() =~= Seq::<Seq<char>>::empty());
        assert(out@ =~= head + numbered_lines(split_lines(t@.take(0)).drop_last(), w as nat));
    }
    while j < t.len()
        invariant
            j <= t@.len(),
            t@ == text@,
            lines_cuttable(text@),
            count == split_lines(t@).len(),
            w == number_width(count as nat),
            no == split_lines(t@.take(j as int)).len(),
            no <= count,
            cur@ == split_lines(t@.take(j as int)).last(),
            out@ == head + numbered_lines(split_lines(t@.take(j as int)).drop_last(), w as nat),
        decreases t.len() - j,
    {
        let c = t[j];
        let ghost prev = split_lines(t@.take(j as int));
        proof {
            assert(t@.take(j + 1).drop_last() =~= t@.take(j as int));
            lemma_split_lines_len(t@.take(j as int));
            lemma_split_lines_prefix(t@, j as int);
        }
        if c == '\n' {
            proof {
                let k = (no - 1) as int;
                assert(split_lines(t@)[k] == prev.last());
                assert(lines_cuttable(text@));
                assert(cuttable(escape_text_spec(split_lines(t@)[k])));
            }
            push_numbered_line(&mut out, no, w, cur.as_slice());
            proof {
                let next = prev.push(Seq::empty());
                assert(next.drop_last() =~= prev);
                assert(prev.drop_last().push(prev.last()) =~= prev);
                assert(numbered_lines(prev, w as nat) == numbered_lines(prev.drop_last(), w as nat)
                    + numbered_line(prev.len(), w as nat, prev.last()));
            }
            cur = Vec::new();
            no = no + 1;
            proof {
                lemma_split_lines_len(t@.take(j + 1));
                lemma_split_lines_prefix(t@, j + 1);
            }
        } else {
            cur.push(c);
            proof {
                let next = prev.update(prev.len() - 1, prev.last().push(c));
                assert(next.drop_last() =~= prev.drop_last());
            }
        }
        j = j + 1;
    }
    assert(t@.take(j as int) =~= t@);
    proof {
        lemma_split_lines_len(t@);
        let ls = split_lines(t@);
        assert(ls[ls.len() - 1] == ls.last());
        assert(cuttable(escape_text_spec(ls[ls.len() - 1])));
    }
    push_numbered_line(&mut out, no, w, cur.as_slice());
    proof {
        let ls = split_lines(t@);
        assert(numbered_lines(ls, w as nat) == numbered_lines(ls.drop_last(), w as nat)
            + numbered_line(ls.len(), w as nat, ls.last()));
        assert(out@ =~= "[CONTENT: "@ + decimal(utf8_len(text@)) + " bytes, "@ + decimal(ls.len())
            + " lines]\n"@ + numbered_lines(ls, number_width(ls.len())));
    }
    let end = skip_ws_back_exec(out.as_slice(), out.len());
    proof {
        lemma_skip_ws_back_bounds(out@, out@.len() as int);
    }
    let kept = subseq(out.as_slice(), 0, end);
    string_of(kept.as_slice())
}

/// The line count never passes the byte count plus one.
proof fn lemma_utf8_len_count(t: Seq<char>)
    ensures
        t.len() <= utf8_len(t),
    decreases t.len(),
{
    if t.len() > 0 {
        lemma_utf8_len_count(t.drop_last());
    }
}

/// The lines of a prefix: all but its last are lines of the whole text,
/// and their count does not pass the whole text's.
proof fn lemma_split_lines_prefix(t: Seq<char>, j: int)
    requires
        0 <= j <= t.len(),
    ensures
        split_lines(t.take(j)).len() <= split_lines(t).len(),
        forall|k: int|
            0 <= k < split_lines(t.take(j)).len() - 1 ==> split_lines(t)[k] == split_lines(
                t.take(j),
            )[k],
        j < t.len() && t[j] == '\n' ==> split_lines(t)[split_lines(t.take(j)).len() - 1]
            == split_lines(t.take(j)).last(),
        j == t.len() ==> split_lines(t.take(j)) == split_lines(t),
    decreases t.len() - j,
{
    if j == t.len() {
        assert(t.take(j) =~= t);
    } else {
        lemma_split_lines_prefix(t, j + 1);
        let a = split_lines(t.take(j));
        let b = split_lines(t.take(j + 1));
        assert(t.take(j + 1).drop_last() =~= t.take(j));
        lemma_split_lines_len(t.take(j));
        if t[j] == '\n' {
            assert(b == a.push(Seq::empty()));
        } else {
            assert(b == a.update(a.len() - 1, a.last().push(t[j])));
        }
    }
}

// ---------------------------------------------------------------------------
// Bytes
// ---------------------------------------------------------------------------

/// The lower-case hexadecimal digits of `n`, without leading zeros.
pub open spec fn hex_digits(n: nat) -> Seq<char>
    decreases n,
{
    if n < 16 {
        seq![hex_digit(n)]
    } else {
        hex_digits(n / 16).push(hex_digit(n % 16))
    }
}

/// `n` in hexadecimal, padded with zeros to at least 8 digits.
pub open spec fn hex_offset(n: nat) -> Seq<char> {
    let h = hex_digits(n);
    if h.len() < 8 {
        Seq::new((8 - h.len()) as nat, |i: int| '0') + h
    } else {
        h
    }
}

/// A byte shown as itself: a graphic ASCII character or the space.
pub open spec fn shows_as_ascii(b: u8) -> bool {
    0x20 <= b <= 0x7e
}

/// A byte in the ASCII column of a hex dump.
pub open spec fn ascii_cell(b: u8) -> char {
    if shows_as_ascii(b) {
        b as char
    } else {
        '.'
    }
}

/// Column `j` of a hex-dump row of the bytes `c`: an extra space before the
/// ninth column, then two digits and a space, or three spaces past the end.
pub open spec fn hex_cell(c: Seq<u8>, j: int) -> Seq<char> {
    (if j == 8 {
        seq![' ']
    } else {
        Seq::empty()
    }) + (if j < c.len() {
        hex2(c[j] as nat) + seq![' ']
    } else {
        "   "@
    })
}

/// The first `j` columns of a hex-dump row.
pub open spec fn hex_cells(c: Seq<u8>, j: nat) -> Seq<char>
    decreases j,
{
    if j == 0 {
        Seq::empty()
    } else {
        hex_cells(c, (j - 1) as nat) + hex_cell(c, j - 1)
    }
}

/// One row of a hex dump: the offset, sixteen columns, and the bytes as
/// ASCII.
pub open spec fn hex_row(c: Seq<u8>, offset: nat) -> Seq<char> {
    hex_offset(offset) + "| "@ + hex_cells(c, 16) + " |"@ + Seq::new(
        c.len(),
        |i: int| ascii_cell(c[i]),
    ) + "|\n"@
}

/// The `i`-th run of 16 bytes (the last one may be shorter).
pub open spec fn chunk(b: Seq<u8>, i: nat) -> Seq<u8> {
    if 16 * i + 16 <= b.len() {
        b.subrange(16 * i as int, 16 * i + 16int)
    } else {
        b.subrange(16 * i as int, b.len() as int)
    }
}

/// The first `k` rows of the hex dump of `b`.
pub open spec fn hex_rows(b: Seq<u8>, k: nat) -> Seq<char>
    decreases k,
{
    if k == 0 {
        Seq::empty()
    } else {
        hex_rows(b, (k - 1) as nat) + hex_row(chunk(b, (k - 1) as nat), 16 * (k - 1) as nat)
    }
}

/// The number of rows: one for each 16 bytes, and one for what is left.
pub open spec fn row_count(n: nat) -> nat {
    (n + 15) / 16
}

/// Bytes as a hex dump with offsets; trailing blanks trimmed.
pub open spec fn hex_dump(b: Seq<u8>) -> Seq<char> {
    trim_end(
        "[BINARY: "@ + decimal(b.len()) + " bytes]\n"@ + hex_rows(b, row_count(b.len())),
    )
}

/// How one byte of text that is not UTF-8 is logged: carriage returns
/// dropped, ASCII shown as it is, other bytes as `\xNN`.
pub open spec fn byte_escape(b: u8) -> Seq<char> {
    if b == 13 {
        Seq::empty()
    } else if shows_as_ascii(b) {
        seq![b as char]
    } else {
        "\\x"@ + hex2(b as nat)
    }
}

/// Bytes that are not UTF-8, escaped byte by byte.
pub open spec fn escape_raw_bytes(b: Seq<u8>) -> Seq<char>
    decreases b.len(),
{
    if b.len() == 0 {
        Seq::empty()
    } else {
        escape_raw_bytes(b.drop_last()) + byte_escape(b.last())
    }
}

/// Bytes escaped for a log message: as text when they are UTF-8.
pub open spec fn escape_bytes_spec(b: Seq<u8>) -> Seq<char> {
    if valid_utf8(b) {
        escape_text_spec(decode_utf8(b))
    } else {
        escape_raw_bytes(b)
    }
}

fn push_hex_digits(out: &mut Vec<char>, n: u64)
    ensures
        final(out)@ == old(out)@ + hex_digits(n as nat),
    decreases n,
{
    if n < 16 {
        let c = crate::logging::hex_digit_exec(n as u32);
        out.push(c);
        assert(old(out)@ + hex_digits(n as nat) =~= old(out)@.push(c));
    } else {
        push_hex_digits(out, n / 16);
        let c = crate::logging::hex_digit_exec((n % 16) as u32);
        out.push(c);
        assert(old(out)@ + hex_digits(n as nat) =~= old(out)@ + hex_digits((n / 16) as nat) + seq![c]);
    }
}

fn push_hex_offset(out: &mut Vec<char>, n: u64)
    ensures
        final(out)@ == old(out)@ + hex_offset(n as nat),
{
    let mut h: Vec<char> = Vec::new();
    push_hex_digits(&mut h, n);
    assert(h@ =~= hex_digits(n as nat));
    if h.len() < 8 {
        let mut i: usize = 0;
        let z = 8 - h.len();
        while i < z
            invariant
                i <= z,
                out@ == old(out)@ + Seq::new(i as nat, |k: int| '0'),
            decreases z - i,
        {
            out.push('0');
            i = i + 1;
            assert(out@ =~= old(out)@ + Seq::new(i as nat, |k: int| '0'));
        }
    }
    push_all(out, h.as_slice());
    assert(final(out)@ =~= old(out)@ + hex_offset(n as nat));
}

fn push_hex_row(out: &mut Vec<char>, c: &[u8], offset: u64)
    requires
        c@.len() <= 16,
    ensures
        final(out)@ == old(out)@ + hex_row(c@, offset as nat),
{
    push_hex_offset(out, offset);
    push_str(out, "| ");
    let ghost start = out@;
    let mut j: usize = 0;
    while j < 16
        invariant
            j <= 16,
            c@.len() <= 16,
            out@ == start + hex_cells(c@, j as nat),
        decreases 16 - j,
    {
        let ghost before = out@;
        if j == 8 {
            out.push(' ');
        }
        if j < c.len() {
            push_hex2(out, c[j] as u32);
            out.push(' ');
        } else {
            push_str(out, "   ");
        }
        assert(out@ =~= before + hex_cell(c@, j as int));
        j = j + 1;
    }
    push_str(out, " |");
    let ghost mid = out@;
    let mut k: usize = 0;
    while k < c.len()
        invariant
            k <= c@.len(),
            out@ == mid + Seq::new(k as nat, |i: int| ascii_cell(c@[i])),
        decreases c.len() - k,
    {
        let b = c[k];
        if 0x20 <= b && b <= 0x7e {
            out.push(b as char);
        } else {
            out.push('.');
        }
        k = k + 1;
        assert(out@ =~= mid + Seq::new(k as nat, |i: int| ascii_cell(c@[i])));
    }
    push_str(out, "|\n");
    assert(final(out)@ =~= old(out)@ + hex_row(c@, offset as nat));
}

/// Bytes as a hex dump: a header with the size, then rows of 16 bytes with
/// their offset, hexadecimal values and ASCII.
pub fn format_hex_with_offset(bytes: &[u8]) -> (r: String)
    ensures
        r@ == hex_dump(bytes@),
{
    let n = bytes.len();
    let mut out: Vec<char> = Vec::new();
    push_str(&mut out, "[BINARY: ");
    push_decimal(&mut out, n as u64);
    push_str(&mut out, " bytes]\n");
    let ghost head = out@;
    let mut start: usize = 0;
    let ghost mut k: nat = 0;
    while start < n
        invariant_except_break
            start <= n,
            n == bytes@.len(),
            start == 16 * k,
            out@ == head + hex_rows(bytes@, k),
        ensures
            out@ == head + hex_rows(bytes@, row_count(n as nat)),
        decreases n - start,
    {
        let end: usize = if n - start > 16 {
            start + 16
        } else {
            n
        };
        let mut c: Vec<u8> = Vec::new();
        let mut i = start;
        while i < end
            invariant
                start <= i <= end,
                end <= bytes@.len(),
                c@ == bytes@.subrange(start as int, i as int),
            decreases end - i,
        {
            c.push(bytes[i]);
            i = i + 1;
            assert(c@ =~= bytes@.subrange(start as int, i as int));
        }
        assert(c@ == chunk(bytes@, k));
        push_hex_row(&mut out, c.as_slice(), start as u64);
        proof {
            k = k + 1;
        }
        if end == n {
            assert(row_count(n as nat) == k) by {
                assert(16 * (k - 1) < n <= 16 * (k - 1) + 16);
            }
            break;
        }
        start = end;
    }
    proof {
        if n == 0 {
            assert(row_count(0) == 0);
        }
    }
    let end = skip_ws_back_exec(out.as_slice(), out.len());
    proof {
        lemma_skip_ws_back_bounds(out@, out@.len() as int);
    }
    let kept = subseq(out.as_slice(), 0, end);
    string_of(kept.as_slice())
}

/// Bytes escaped for a log message: as text when they are UTF-8, else byte
/// by byte.
pub fn escape_bytes(bytes: &[u8]) -> (r: String)
    ensures
        r@ == escape_bytes_spec(bytes@),
{
    match str_from_utf8(bytes) {
        Some(s) => {
            proof {
                lemma_from_utf8_text(s@, bytes@);
            }
            escape_text(s)
        },
        None => {
            let mut out: Vec<char> = Vec::new();
            let mut i: usize = 0;
            while i < bytes.len()
                invariant
                    i <= bytes@.len(),
                    out@ == escape_raw_bytes(bytes@.take(i as int)),
                decreases bytes.len() - i,
            {
                let b = bytes[i];
                let ghost before = out@;
                if b == 13 {
                } else if 0x20 <= b && b <= 0x7e {
                    out.push(b as char);
                } else {
                    push_str(&mut out, "\\x");
                    push_hex2(&mut out, b as u32);
                }
                assert(out@ =~= before + byte_escape(b));
                assert(bytes@.take(i + 1).drop_last() =~= bytes@.take(i as int));
                i = i + 1;
            }
            assert(bytes@.take(i as int) =~= bytes@);
            string_of(out.as_slice())
        },
    }
}

// ---------------------------------------------------------------------------
// Content
// ---------------------------------------------------------------------------

/// Text as it is logged: under 256 bytes as an escaped one-liner in quotes,
/// else with numbered lines.
pub open spec fn content_text(t: Seq<char>) -> Seq<char> {
    if utf8_len(t) < content_threshold() {
        seq!['"'] + escape_text_spec(t) + seq!['"']
    } else {
        line_numbers_text(t)
    }
}

/// Text that can be logged: long text must have lines that can be cut.
pub open spec fn content_ok(t: Seq<char>) -> bool {
    utf8_len(t) >= content_threshold() ==> lines_cuttable(t)
}

/// Bytes as they are logged: as text when they are UTF-8; else escaped in
/// quotes under 256 bytes, a hex dump from there on.
pub open spec fn content_bytes_text(b: Seq<u8>) -> Seq<char> {
    if valid_utf8(b) {
        content_text(decode_utf8(b))
    } else if b.len() < content_threshold() {
        seq!['"'] + escape_bytes_spec(b) + seq!['"']
    } else {
        hex_dump(b)
    }
}

/// Bytes that can be logged.
pub open spec fn content_bytes_ok(b: Seq<u8>) -> bool {
    valid_utf8(b) ==> content_ok(decode_utf8(b))
}

/// Text formatted for a log message by its size.
pub fn format_content(text: &str) -> (r: String)
    requires
        utf8_len(text@) < usize::MAX,
        content_ok(text@),
    ensures
        r@ == content_text(text@),
{
    let t = chars_of(text);
    let n = utf8_len_exec(t.as_slice());
    if n < 256 {
        let mut out: Vec<char> = Vec::new();
        out.push('"');
        escape_text_into(&mut out, t.as_slice());
        out.push('"');
        assert(out@ =~= seq!['"'] + escape_text_spec(text@) + seq!['"']);
        string_of(out.as_slice())
    } else {
        format_with_line_numbers(text)
    }
}

/// Bytes formatted for a log message by their size and encoding.
pub fn format_content_bytes(bytes: &[u8]) -> (r: String)
    requires
        bytes@.len() < usize::MAX,
        content_bytes_ok(bytes@),
    ensures
        r@ == content_bytes_text(bytes@),
{
    match str_from_utf8(bytes) {
        Some(s) => {
            proof {
                lemma_from_utf8_text(s@, bytes@);
            }
            format_content(s)
        },
        None => {
            if bytes.len() < 256 {
                let e = escape_bytes(bytes);
                let mut out: Vec<char> = Vec::new();
                out.push('"');
                push_str(&mut out, e.as_str());
                out.push('"');
                assert(out@ =~= seq!['"'] + escape_bytes_spec(bytes@) + seq!['"']);
                string_of(out.as_slice())
            } else {
                format_hex_with_offset(bytes)
            }
        },
    }
}

} // verus!
