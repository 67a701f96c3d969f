//! Naming the debug log file and stamping its lines: the working directory
//! made safe for a file name, the calendar date of a Unix time, and the
//! date and time texts.
use vstd::prelude::*;

use crate::clock::unix_time;
use crate::text::{chars_of, decimal, push_all, push_decimal, push_str, string_of};

verus! {

/// `c` in lower case when it is an ASCII capital.
pub open spec fn ascii_lower(c: char) -> char {
    if 'A' <= c <= 'Z' {
        ((c as u32) + 32) as char
    } else {
        c
    }
}

/// One character of a path as it goes into a file name: separators become
/// `--` (once in a row), colons are dropped, characters that a file name
/// cannot hold and blanks become `_`, the rest is lower-cased.
pub open spec fn sanitize_step(r: Seq<char>, c: char) -> Seq<char> {
    if c == '/' || c == '\\' {
        if r.len() > 0 && r.last() == '-' {
            r
        } else {
            r + seq!['-', '-']
        }
    } else if c == ':' {
        r
    } else if c == '<' || c == '>' || c == '"' || c == '|' || c == '?' || c == '*' || c == ' ' || c
        == '\t' {
        r.push('_')
    } else {
        r.push(ascii_lower(c))
    }
}

/// The path with each character converted.
pub open spec fn sanitize_chars(s: Seq<char>) -> Seq<char>
    decreases s.len(),
{
    if s.len() == 0 {
        Seq::empty()
    } else {
        sanitize_step(sanitize_chars(s.drop_last()), s.last())
    }
}

/// The first index at or after `i` that does not hold `-`.
pub open spec fn skip_dashes(s: Seq<char>, i: int) -> int
    decreases s.len() - i,
{
    if i >= s.len() {
        s.len() as int
    } else if s[i] == '-' {
        skip_dashes(s, i + 1)
    } else {
        i
    }
}

/// The end of `s[..j]` once its trailing `-` are dropped.
pub open spec fn skip_dashes_back(s: Seq<char>, j: int) -> int
    decreases j,
{
    if j <= 0 {
        0
    } else if s[j - 1] == '-' {
        skip_dashes_back(s, j - 1)
    } else {
        j
    }
}

/// `s` without leading and trailing `-` (`str::trim_matches('-')`).
pub open spec fn trim_dashes(s: Seq<char>) -> Seq<char> {
    let a = skip_dashes(s, 0);
    let b = skip_dashes_back(s, s.len() as int);
    if a >= b {
        Seq::empty()
    } else {
        s.subrange(a, b)
    }
}

/// A path made into a part of a file name; `unknown` when nothing is left.
pub open spec fn sanitized(path: Seq<char>) -> Seq<char> {
    let t = trim_dashes(sanitize_chars(path));
    if t.len() == 0 {
        "unknown"@
    } else {
        t
    }
}

/// A character that goes into the file name as it is, lower-cased: not a
/// separator, a colon, one of `< > " | ? *`, or a blank.
pub open spec fn kept_in_name(c: char) -> bool {
    !(c == '/' || c == '\\' || c == ':' || c == '<' || c == '>' || c == '"' || c == '|' || c
        == '?' || c == '*' || c == ' ' || c == '\t')
}

/// A character kept in a file name adds exactly itself, lower-cased, after
/// what the path before it gave.
pub proof fn lemma_sanitize_keeps_char(s: Seq<char>, c: char)
    requires
        kept_in_name(c),
    ensures
        sanitize_chars(s.push(c)) == sanitize_chars(s).push(ascii_lower(c)),
        'a' <= c <= 'z' || ('0' <= c <= '9') || c == '.' || c == '-' || c == '_' ==> sanitize_chars(
            s.push(c),
        ) == sanitize_chars(s).push(c),
{
    assert(s.push(c).drop_last() =~= s);
}

/// A path made only of characters kept in a file name comes out as those
/// characters, lower-cased, in order.
pub proof fn lemma_sanitize_plain_path(s: Seq<char>)
    requires
        forall|i: int| 0 <= i < s.len() ==> kept_in_name(#[trigger] s[i]),
    ensures
        sanitize_chars(s) == s.map_values(|c: char| ascii_lower(c)),
    decreases s.len(),
{
    if s.len() > 0 {
        let p = s.drop_last();
        assert forall|i: int| 0 <= i < p.len() implies kept_in_name(#[trigger] p[i]) by {
            assert(p[i] == s[i]);
        }
        lemma_sanitize_plain_path(p);
        assert(kept_in_name(s[s.len() - 1]));
        lemma_sanitize_keeps_char(p, s.last());
        assert(s =~= p.push(s.last()));
        assert(s.map_values(|c: char| ascii_lower(c)) =~= p.map_values(|c: char| ascii_lower(c)).push(
            ascii_lower(s.last()),
        ));
    } else {
        assert(s.map_values(|c: char| ascii_lower(c)) =~= Seq::<char>::empty());
    }
}

/// A path of characters kept in a file name that neither starts nor ends
/// with `-` names the log file as itself, lower-cased.
pub proof fn lemma_sanitized_plain_path(path: Seq<char>)
    requires
        path.len() > 0,
        forall|i: int| 0 <= i < path.len() ==> kept_in_name(#[trigger] path[i]),
        path[0] != '-',
        path.last() != '-',
    ensures
        sanitized(path) == path.map_values(|c: char| ascii_lower(c)),
{
    lemma_sanitize_plain_path(path);
    let t = sanitize_chars(path);
    assert(t.len() == path.len());
    assert(t[0] == ascii_lower(path[0]));
    assert(t[t.len() - 1] == ascii_lower(path[path.len() - 1]));
    assert(skip_dashes(t, 0) == 0);
    assert(skip_dashes_back(t, t.len() as int) == t.len());
    assert(t.subrange(0, t.len() as int) =~= t);
}

/// A character that a file name made from a path never holds: a path
/// separator, a colon, a character that file names cannot hold, a blank,
/// or an ASCII capital.
pub open spec fn unsafe_in_name(c: char) -> bool {
    c == '/' || c == '\\' || c == ':' || c == '<' || c == '>' || c == '"' || c == '|' || c == '?'
        || c == '*' || c == ' ' || c == '\t' || ('A' <= c <= 'Z')
}

proof fn lemma_sanitize_chars_safe(s: Seq<char>)
    ensures
        forall|i: int|
            0 <= i < sanitize_chars(s).len() ==> !unsafe_in_name(#[trigger] sanitize_chars(s)[i]),
    decreases s.len(),
{
    if s.len() > 0 {
        let r = sanitize_chars(s.drop_last());
        lemma_sanitize_chars_safe(s.drop_last());
        let c = s.last();
        let n = sanitize_step(r, c);
        assert(!unsafe_in_name(ascii_lower(c)) || unsafe_in_name(c));
        assert forall|i: int| 0 <= i < n.len() implies !unsafe_in_name(#[trigger] n[i]) by {
            if i < r.len() {
                assert(n[i] == r[i]);
            }
        }
    }
}

proof fn lemma_skip_dashes_stops(s: Seq<char>, i: int)
    requires
        0 <= i <= s.len(),
    ensures
        skip_dashes(s, i) < s.len() ==> s[skip_dashes(s, i)] != '-',
    decreases s.len() - i,
{
    if i < s.len() && s[i] == '-' {
        lemma_skip_dashes_stops(s, i + 1);
    }
}

proof fn lemma_skip_dashes_back_stops(s: Seq<char>, j: int)
    requires
        0 <= j <= s.len(),
    ensures
        skip_dashes_back(s, j) > 0 ==> s[skip_dashes_back(s, j) - 1] != '-',
    decreases j,
{
    if j > 0 && s[j - 1] == '-' {
        lemma_skip_dashes_back_stops(s, j - 1);
    }
}

/// The name made from any path is usable in a file name: never empty,
/// free of separators, colons, characters that file names cannot hold,
/// blanks and capitals, and neither starting nor ending with `-`.
pub proof fn lemma_sanitized_is_file_name(path: Seq<char>)
    ensures
        sanitized(path).len() > 0,
        forall|i: int| 0 <= i < sanitized(path).len() ==> !unsafe_in_name(#[trigger] sanitized(path)[i]),
        sanitized(path)[0] != '-',
        sanitized(path).last() != '-',
{
    let s = sanitize_chars(path);
    lemma_sanitize_chars_safe(path);
    lemma_skip_dashes_bounds(s, 0);
    lemma_skip_dashes_back_bounds(s, s.len() as int);
    lemma_skip_dashes_stops(s, 0);
    lemma_skip_dashes_back_stops(s, s.len() as int);
    let a = skip_dashes(s, 0);
    let b = skip_dashes_back(s, s.len() as int);
    if a < b {
        let t = s.subrange(a, b);
        assert forall|i: int| 0 <= i < t.len() implies !unsafe_in_name(#[trigger] t[i]) by {
            assert(t[i] == s[a + i]);
        }
        assert(t[0] == s[a]);
        assert(t.last() == s[b - 1]);
    } else {
        reveal_strlit("unknown");
    }
}

proof fn lemma_skip_dashes_bounds(s: Seq<char>, i: int)
    requires
        0 <= i <= s.len(),
    ensures
        i <= skip_dashes(s, i) <= s.len(),
    decreases s.len() - i,
{
    if i < s.len() && s[i] == '-' {
        lemma_skip_dashes_bounds(s, i + 1);
    }
}

proof fn lemma_skip_dashes_back_bounds(s: Seq<char>, j: int)
    requires
        0 <= j <= s.len(),
    ensures
        0 <= skip_dashes_back(s, j) <= j,
    decreases j,
{
    if j > 0 && s[j - 1] == '-' {
        lemma_skip_dashes_back_bounds(s, j - 1);
    }
}

fn ascii_lower_exec(c: char) -> (r: char)
    ensures
        r == ascii_lower(c),
{
    if 'A' <= c && c <= 'Z' {
        let b: u8 = (c as u32 + 32) as u8;
        b as char
    } else {
        c
    }
}

/// Makes a path safe to use in a file name: separators become `--`, the
/// drive colon goes, invalid characters and blanks become `_`, letters are
/// lower-cased, and leading or trailing dashes are trimmed.
/// Example: `C:\Users\John\Project` becomes `c--users--john--project`.
pub fn sanitize_path_for_filename(path: &str) -> (r: String)
    ensures
        r@ == sanitized(path@),
{
    let v = chars_of(path);
    let mut out: Vec<char> = Vec::new();
    let mut i: usize = 0;
    while i < v.len()
        invariant
            i <= v@.len(),
            out@ == sanitize_chars(v@.take(i as int)),
        decreases v.len() - i,
    {
        let c = v[i];
        proof {
            assert(v@.take(i + 1).drop_last() =~= v@.take(i as int));
        }
        if c == '/' || c == '\\' {
            let n = out.len();
            if !(n > 0 && out[n - 1] == '-') {
                out.push('-');
                out.push('-');
            }
        } else if c == ':' {
        } else if c == '<' || c == '>' || c == '"' || c == '|' || c == '?' || c == '*' || c == ' '
            || c == '\t' {
            out.push('_');
        } else {
            out.push(ascii_lower_exec(c));
        }
        i = i + 1;
        assert(out@ =~= sanitize_chars(v@.take(i as int)));
    }
    assert(v@.take(i as int) =~= v@);
    let n = out.len();
    let mut a: usize = 0;
    while a < n && out[a] == '-'
        invariant
            a <= n == out@.len(),
            skip_dashes(out@, 0) == skip_dashes(out@, a as int),
        decreases n - a,
    {
        a = a + 1;
    }
    let mut b: usize = n;
    while b > 0 && out[b - 1] == '-'
        invariant
            b <= n == out@.len(),
            skip_dashes_back(out@, n as int) == skip_dashes_back(out@, b as int),
        decreases b,
    {
        b = b - 1;
    }
    if a >= b {
        String::from_str("unknown")
    } else {
        let mut t: Vec<char> = Vec::new();
        let mut k = a;
        while k < b
            invariant
                a <= k <= b <= out@.len(),
                t@ == out@.subrange(a as int, k as int),
            decreases b - k,
        {
            t.push(out[k]);
            k = k + 1;
            assert(t@ =~= out@.subrange(a as int, k as int));
        }
        string_of(t.as_slice())
    }
}

/// `s` with every `-` removed.
pub open spec fn without_dashes(s: Seq<char>) -> Seq<char>
    decreases s.len(),
{
    if s.len() == 0 {
        Seq::empty()
    } else if s.last() == '-' {
        without_dashes(s.drop_last())
    } else {
        without_dashes(s.drop_last()).push(s.last())
    }
}

/// The name of the log file: the sanitized directory, the date without
/// dashes, and the process id: `{cwd}_{yyyymmdd}_{pid}.log`.
pub fn log_file_name(sanitized_cwd: &str, date: &str, pid: u32) -> (r: String)
    ensures
        r@ == sanitized_cwd@ + "_"@ + without_dashes(date@) + "_"@ + decimal(pid as nat) + ".log"@,
{
    let mut out: Vec<char> = Vec::new();
    push_str(&mut out, sanitized_cwd);
    push_str(&mut out, "_");
    let d = chars_of(date);
    let ghost start = out@;
    let mut i: usize = 0;
    while i < d.len()
        invariant
            i <= d@.len(),
            out@ == start + without_dashes(d@.take(i as int)),
        decreases d.len() - i,
    {
        proof {
            assert(d@.take(i + 1).drop_last() =~= d@.take(i as int));
        }
        if d[i] != '-' {
            out.push(d[i]);
        }
        i = i + 1;
        assert(out@ =~= start + without_dashes(d@.take(i as int)));
    }
    assert(d@.take(i as int) =~= d@);
    push_str(&mut out, "_");
    push_decimal(&mut out, pid as u64);
    push_str(&mut out, ".log");
    string_of(out.as_slice())
}

// ---------------------------------------------------------------------------
// Dates and times
// ---------------------------------------------------------------------------

/// The civil date (year, month, day) that is `days` days after 1970-01-01
/// in the proleptic Gregorian calendar, by the days-from-civil inverse
/// (eras of 400 years = 146097 days, years starting in March).
pub open spec fn civil_from_days(days: int) -> (int, int, int) {
    let z = days + 719468;
    let era = z / 146097;
    let doe = z - era * 146097;
    let yoe = (doe - doe / 1460 + doe / 36524 - doe / 146096) / 365;
    let doy = doe - (365 * yoe + yoe / 4 - yoe / 100);
    let mp = (5 * doy + 2) / 153;
    let d = doy - (153 * mp + 2) / 5 + 1;
    let m = if mp < 10 {
        mp + 3
    } else {
        mp - 9
    };
    let y = yoe + era * 400 + if m <= 2 {
        1int
    } else {
        0
    };
    (y, m, d)
}

/// The floor of `z / 146097`, computed without overflow.
fn era_of(z: i64) -> (r: i64)
    ensures
        r as int == (z as int) / 146097,
{
    if z >= 0 {
        z / 146097
    } else {
        let m: u64 = (-1 - z) as u64;
        let q: u64 = (m + 146097) / 146097;
        proof {
            let zi = z as int;
            let qi = q as int;
            assert(qi * 146097 <= m + 146097 < qi * 146097 + 146097) by (nonlinear_arith)
                requires
                    qi == (m + 146097) / 146097,
            ;
            assert(m == -1 - zi);
            assert(0 <= zi + qi * 146097 < 146097);
            assert(zi == (-qi) * 146097 + (zi + qi * 146097));
            assert(zi / 146097 == -qi) by (nonlinear_arith)
                requires
                    zi == (-qi) * 146097 + (zi + qi * 146097),
                    0 <= zi + qi * 146097 < 146097,
            ;
        }
        -(q as i64)
    }
}

/// The civil date `days` days after 1970-01-01, as (year, month, day); the
/// year is cut to `i32`.
#[verifier::spinoff_prover]
#[verifier::rlimit(40)]
pub fn days_to_ymd(days: i64) -> (r: (i32, u32, u32))
    requires
        i64::MIN + 146096 - 719468 <= days <= i64::MAX - 719468,
    ensures
        r.0 == civil_from_days(days as int).0 as i32,
        r.1 == civil_from_days(days as int).1 as u32,
        r.2 == civil_from_days(days as int).2 as u32,
{
    let z = days + 719468;
    let era = era_of(z);
    proof {
        let zi = z as int;
        let e = era as int;
        assert(0 <= zi - e * 146097 < 146097) by (nonlinear_arith)
            requires
                e == zi / 146097,
        ;
        assert(e * 146097 >= i64::MIN && e * 400 >= i64::MIN && e * 400 <= i64::MAX)
            by (nonlinear_arith)
            requires
                e == zi / 146097,
                i64::MIN + 146096 <= zi <= i64::MAX,
        ;
    }
    let doe: i64 = z - era * 146097;
    let yoe: i64 = (doe - doe / 1460 + doe / 36524 - doe / 146096) / 365;
    let y: i64 = yoe + era * 400;
    let doy: i64 = doe - (365 * yoe + yoe / 4 - yoe / 100);
    let mp: i64 = (5 * doy + 2) / 153;
    let d: i64 = doy - (153 * mp + 2) / 5 + 1;
    let m: i64 = if mp < 10 {
        mp + 3
    } else {
        mp - 9
    };
    let y: i64 = if m <= 2 {
        y + 1
    } else {
        y
    };
    (y as i32, m as u32, d as u32)
}

/// `s` padded with leading zeros to `w` characters.
pub open spec fn zero_pad(s: Seq<char>, w: nat) -> Seq<char> {
    if s.len() < w {
        Seq::new((w - s.len()) as nat, |i: int| '0') + s
    } else {
        s
    }
}

/// `n` in decimal, zero-padded to `w` characters with the sign first, as
/// the `{:0w}` format writes it.
pub open spec fn padded(n: int, w: nat) -> Seq<char> {
    if n < 0 {
        seq!['-'] + zero_pad(decimal((-n) as nat), (w - 1) as nat)
    } else {
        zero_pad(decimal(n as nat), w)
    }
}

fn push_padded(out: &mut Vec<char>, n: i64, w: usize)
    requires
        1 <= w <= 8,
        n > i64::MIN,
    ensures
        final(out)@ == old(out)@ + padded(n as int, w as nat),
{
    let mut digits: Vec<char> = Vec::new();
    let neg = n < 0;
    let m: u64 = if neg {
        (-n) as u64
    } else {
        n as u64
    };
    push_decimal(&mut digits, m);
    assert(digits@ =~= decimal(m as nat));
    let width = if neg {
        w - 1
    } else {
        w
    };
    if neg {
        out.push('-');
    }
    let ghost start = out@;
    if digits.len() < width {
        let z = width - digits.len();
        let mut i: usize = 0;
        while i < z
            invariant
                i <= z,
                out@ == start + Seq::new(i as nat, |k: int| '0'),
            decreases z - i,
        {
            out.push('0');
            i = i + 1;
            assert(out@ =~= start + Seq::new(i as nat, |k: int| '0'));
        }
    }
    push_all(out, digits.as_slice());
    assert(final(out)@ =~= old(out)@ + padded(n as int, w as nat));
}

/// The date `YYYY-MM-DD` and time `HH:MM:SS.mmm` of a Unix time given as
/// seconds and milliseconds (UTC).
pub open spec fn datetime_text(secs: u64, millis: u32) -> (Seq<char>, Seq<char>) {
    let days = secs / 86400;
    let tod = secs % 86400;
    let c = civil_from_days(days as int);
    (
        padded((c.0 as i32) as int, 4) + "-"@ + padded((c.1 as u32) as int, 2) + "-"@ + padded(
            (c.2 as u32) as int,
            2,
        ),
        padded((tod / 3600) as int, 2) + ":"@ + padded(((tod % 3600) / 60) as int, 2) + ":"@
            + padded((tod % 60) as int, 2) + "."@ + padded(millis as int, 3),
    )
}

/// The date and time texts of a Unix time given as seconds and
/// milliseconds.
pub fn format_datetime(total_secs: u64, millis: u32) -> (r: (String, String))
    ensures
        r.0@ == datetime_text(total_secs, millis).0,
        r.1@ == datetime_text(total_secs, millis).1,
{
    let days = total_secs / 86400;
    let time_of_day = total_secs % 86400;
    let hours = time_of_day / 3600;
    let minutes = (time_of_day % 3600) / 60;
    let seconds = time_of_day % 60;
    let (year, month, day) = days_to_ymd(days as i64);
    let mut date: Vec<char> = Vec::new();
    push_padded(&mut date, year as i64, 4);
    push_str(&mut date, "-");
    push_padded(&mut date, month as i64, 2);
    push_str(&mut date, "-");
    push_padded(&mut date, day as i64, 2);
    let mut time: Vec<char> = Vec::new();
    push_padded(&mut time, hours as i64, 2);
    push_str(&mut time, ":");
    push_padded(&mut time, minutes as i64, 2);
    push_str(&mut time, ":");
    push_padded(&mut time, seconds as i64, 2);
    push_str(&mut time, ".");
    push_padded(&mut time, millis as i64, 3);
    proof {
        let c = civil_from_days(days as int);
        assert(date@ =~= datetime_text(total_secs, millis).0);
        assert(time@ =~= datetime_text(total_secs, millis).1);
    }
    (string_of(date.as_slice()), string_of(time.as_slice()))
}

/// The current date and time texts, `YYYY-MM-DD` and `HH:MM:SS.mmm` (UTC).
pub fn get_datetime() -> (r: (String, String))
    ensures
        exists|secs: u64, millis: u32|
            millis < 1000 && r.0@ == datetime_text(secs, millis).0 && r.1@ == datetime_text(
                secs,
                millis,
            ).1,
{
    let (secs, millis) = unix_time();
    format_datetime(secs, millis)
}

} // verus!
