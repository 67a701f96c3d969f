//! The reader of the configuration file: the text model of what
//! `Config::parse` accepts and produces, and the executable scanners.
use vstd::prelude::*;

use crate::folders::insert_pair;
use crate::recent::newest_first;
use crate::json_string::{lemma_read_string_bounds, read_string};
use crate::text::{
    chars_of, digit_value, digits_end, digits_end_exec, digits_value, find_char_exec,
    find_char_from, find_from, find_from_exec, is_digit, lemma_digits_end_bounds,
    lemma_digits_value_mono, lemma_find_char_from_bounds, lemma_find_from_bounds,
    lemma_skip_ws_back_bounds, lemma_skip_ws_bounds, matches_at, matches_at_exec, push_all,
    skip_ws, skip_ws_back_exec, skip_ws_exec, starts_with, subseq, trim, trim_start,
};

verus! {

/// The configuration as text and numbers.
pub struct ConfigView {
    pub word_wrap: bool,
    pub indent_with_tabs: bool,
    pub tab_size: u8,
    pub newline_crlf: bool,
    pub line_numbers: bool,
    pub line_highlight: bool,
    pub insert_final_newline: bool,
    pub ruler_column: u8,
    pub project_folders: Seq<(Seq<char>, Seq<char>)>,
    pub recent_files: Seq<(Seq<char>, u64)>,
}

/// The defaults; `windows` is whether the editor runs on Windows.
pub open spec fn default_view(windows: bool) -> ConfigView {
    ConfigView {
        word_wrap: false,
        indent_with_tabs: false,
        tab_size: 4,
        newline_crlf: windows,
        line_numbers: true,
        line_highlight: true,
        insert_final_newline: !windows,
        ruler_column: 0,
        project_folders: Seq::empty(),
        recent_files: Seq::empty(),
    }
}

/// The documented defaults: no word wrap, spaces, a tab size of 4, line
/// numbers and the current line highlighted, no ruler, no folders and no
/// recent files; CRLF and no final newline on Windows, LF and a final
/// newline elsewhere.
pub proof fn lemma_default_values(windows: bool)
    ensures
        default_view(windows).word_wrap == false,
        default_view(windows).indent_with_tabs == false,
        default_view(windows).tab_size == 4,
        default_view(windows).newline_crlf == windows,
        default_view(windows).line_numbers == true,
        default_view(windows).line_highlight == true,
        default_view(windows).insert_final_newline == !windows,
        default_view(windows).ruler_column == 0,
        default_view(windows).project_folders.len() == 0,
        default_view(windows).recent_files.len() == 0,
{
}

// ---------------------------------------------------------------------------
// Comment lines
// ---------------------------------------------------------------------------

/// A line whose first non-blank characters are `//`.
pub open spec fn is_comment_line(l: Seq<char>) -> bool {
    starts_with(trim_start(l), seq!['/', '/'])
}

/// A line as kept in the text that is parsed: comment lines become empty.
pub open spec fn keep_line(l: Seq<char>) -> Seq<char> {
    if is_comment_line(l) {
        Seq::empty()
    } else {
        l
    }
}

/// The line `s[i..k]` that ends at the newline at `k`, without a `\r` before it.
pub open spec fn line_before_newline(s: Seq<char>, i: int, k: int) -> Seq<char> {
    if k > i && s[k - 1] == '\r' {
        s.subrange(i, k - 1)
    } else {
        s.subrange(i, k)
    }
}

/// The lines of `s[i..]` (as `str::lines` splits them), comment lines
/// emptied, joined again with `\n`.
pub open spec fn strip_from(s: Seq<char>, i: int) -> Seq<char>
    decreases s.len() - i,
{
    if i < 0 || i > s.len() {
        Seq::empty()
    } else {
        match find_char_from(s, '\n', i) {
            None => keep_line(s.subrange(i, s.len() as int)),
            Some(k) => {
                proof {
                    lemma_find_char_from_bounds(s, '\n', i);
                }
                if k + 1 >= s.len() {
                    keep_line(line_before_newline(s, i, k))
                } else {
                    keep_line(line_before_newline(s, i, k)) + seq!['\n'] + strip_from(s, k + 1)
                }
            },
        }
    }
}

/// The text with its comment lines removed.
pub open spec fn strip_comments(s: Seq<char>) -> Seq<char> {
    strip_from(s, 0)
}

// ---------------------------------------------------------------------------
// Fields
// ---------------------------------------------------------------------------

/// Where the value of the field quoted as `key` starts: `None` when the key
/// does not occur, `Some(None)` when no `:` follows its first occurrence,
/// else `Some(Some(v))` with `v` the first non-blank index after the `:`.
pub open spec fn lookup_field(c: Seq<char>, key: Seq<char>) -> Option<Option<int>> {
    match find_from(c, key, 0) {
        None => None,
        Some(pos) => {
            let r = skip_ws(c, pos + key.len());
            if r < c.len() && c[r] == ':' {
                Some(Some(skip_ws(c, r + 1)))
            } else {
                Some(None)
            }
        },
    }
}

/// A boolean field: absent gives `default`, `true`/`false` after the colon
/// give the value, anything else is an error.
pub open spec fn field_bool(c: Seq<char>, key: Seq<char>, default: bool) -> Option<bool> {
    match lookup_field(c, key) {
        None => Some(default),
        Some(None) => None,
        Some(Some(v)) => if matches_at(c, seq!['t', 'r', 'u', 'e'], v) {
            Some(true)
        } else if matches_at(c, seq!['f', 'a', 'l', 's', 'e'], v) {
            Some(false)
        } else {
            None
        },
    }
}

/// A small integer field: absent gives `default`; a run of digits whose
/// value lies in `min..=max` gives that value; anything else is an error.
pub open spec fn field_u8(c: Seq<char>, key: Seq<char>, default: u8, min: u8, max: u8) -> Option<u8> {
    match lookup_field(c, key) {
        None => Some(default),
        Some(None) => None,
        Some(Some(v)) => {
            let e = digits_end(c, v);
            let n = digits_value(c, v, e);
            if e == v {
                None
            } else if n <= 255 && min <= n <= max {
                Some(n as u8)
            } else {
                None
            }
        },
    }
}

// ---------------------------------------------------------------------------
// Brackets
// ---------------------------------------------------------------------------

pub open spec fn is_open(c: char, brackets: bool) -> bool {
    c == '{' || (brackets && c == '[')
}

pub open spec fn is_close(c: char, brackets: bool) -> bool {
    c == '}' || (brackets && c == ']')
}

/// Scans from `i` for the closer that brings `depth` to zero, skipping
/// braces (and, with `brackets`, square brackets) inside quoted strings.
pub open spec fn close_scan(
    s: Seq<char>,
    i: int,
    depth: int,
    in_str: bool,
    esc: bool,
    brackets: bool,
) -> Option<int>
    decreases s.len() - i,
{
    if i < 0 || i >= s.len() {
        None
    } else if esc {
        close_scan(s, i + 1, depth, in_str, false, brackets)
    } else if s[i] == '\\' && in_str {
        close_scan(s, i + 1, depth, in_str, true, brackets)
    } else if s[i] == '"' {
        close_scan(s, i + 1, depth, !in_str, false, brackets)
    } else if is_open(s[i], brackets) && !in_str {
        close_scan(s, i + 1, depth + 1, in_str, false, brackets)
    } else if is_close(s[i], brackets) && !in_str {
        if depth - 1 == 0 {
            Some(i)
        } else {
            close_scan(s, i + 1, depth - 1, in_str, false, brackets)
        }
    } else {
        close_scan(s, i + 1, depth, in_str, false, brackets)
    }
}

/// The index of the closer matching the opener at `i`.
pub open spec fn matching_close(s: Seq<char>, i: int, brackets: bool) -> Option<int> {
    close_scan(s, i, 0, false, false, brackets)
}

pub proof fn lemma_close_scan_bounds(
    s: Seq<char>,
    i: int,
    depth: int,
    in_str: bool,
    esc: bool,
    brackets: bool,
)
    requires
        0 <= i,
    ensures
        close_scan(s, i, depth, in_str, esc, brackets) matches Some(k) ==> i <= k < s.len(),
    decreases s.len() - i,
{
    if i < s.len() {
        let c = s[i];
        if esc {
            lemma_close_scan_bounds(s, i + 1, depth, in_str, false, brackets);
        } else if c == '\\' && in_str {
            lemma_close_scan_bounds(s, i + 1, depth, in_str, true, brackets);
        } else if c == '"' {
            lemma_close_scan_bounds(s, i + 1, depth, !in_str, false, brackets);
        } else if is_open(c, brackets) && !in_str {
            lemma_close_scan_bounds(s, i + 1, depth + 1, in_str, false, brackets);
        } else if is_close(c, brackets) && !in_str {
            if depth - 1 != 0 {
                lemma_close_scan_bounds(s, i + 1, depth - 1, in_str, false, brackets);
            }
        } else {
            lemma_close_scan_bounds(s, i + 1, depth, in_str, false, brackets);
        }
    }
}

// ---------------------------------------------------------------------------
// project_folders
// ---------------------------------------------------------------------------

/// The pairs `"key": "value"` read from the object body `o` from index `i`
/// on, recorded into `m`; reading stops at the first pair that is not
/// complete. Empty keys and values are read like any other.
pub open spec fn folder_entries(o: Seq<char>, i: int, m: Seq<(Seq<char>, Seq<char>)>) -> Seq<
    (Seq<char>, Seq<char>),
>
    decreases o.len() - i,
{
    if i < 0 {
        m
    } else {
        match find_char_from(o, '"', i) {
            None => m,
            Some(q) => {
                let key = read_string(o, q + 1);
                match key.1 {
                    None => m,
                    Some(ke) => {
                        let r = skip_ws(o, ke + 1);
                        if !(r < o.len() && o[r] == ':') {
                            m
                        } else {
                            let r2 = skip_ws(o, r + 1);
                            if !(r2 < o.len() && o[r2] == '"') {
                                m
                            } else {
                                let val = read_string(o, r2 + 1);
                                match val.1 {
                                    None => m,
                                    Some(ve) => {
                                        proof {
                                            lemma_find_char_from_bounds(o, '"', i);
                                            lemma_read_string_bounds(o, q + 1);
                                            crate::text::lemma_skip_ws_bounds(o, ke + 1);
                                            crate::text::lemma_skip_ws_bounds(o, r + 1);
                                            lemma_read_string_bounds(o, r2 + 1);
                                        }
                                        folder_entries(o, ve + 1, insert_pair(m, key.0, val.0))
                                    },
                                }
                            }
                        }
                    },
                }
            },
        }
    }
}

/// The `project_folders` table of the file body `c`; empty when the field is
/// absent or not an object.
pub open spec fn field_project_folders(c: Seq<char>) -> Seq<(Seq<char>, Seq<char>)> {
    match lookup_field(c, "\"project_folders\""@) {
        Some(Some(v)) => if v < c.len() && c[v] == '{' {
            match matching_close(c, v, false) {
                Some(e) => folder_entries(c.subrange(v + 1, e), 0, Seq::empty()),
                None => Seq::empty(),
            }
        } else {
            Seq::empty()
        },
        _ => Seq::empty(),
    }
}

// ---------------------------------------------------------------------------
// recent_files
// ---------------------------------------------------------------------------

/// The `path` of one recent-file object body.
pub open spec fn entry_path(obj: Seq<char>) -> Option<Seq<char>> {
    match lookup_field(obj, "\"path\""@) {
        Some(Some(v)) => if v < obj.len() && obj[v] == '"' {
            Some(read_string(obj, v + 1).0)
        } else {
            None
        },
        _ => None,
    }
}

/// The `opened_at` of one recent-file object body.
pub open spec fn entry_opened_at(obj: Seq<char>) -> Option<u64> {
    match lookup_field(obj, "\"opened_at\""@) {
        Some(Some(v)) => {
            let e = digits_end(obj, v);
            let n = digits_value(obj, v, e);
            if e != v && n <= u64::MAX {
                Some(n as u64)
            } else {
                None
            }
        },
        _ => None,
    }
}

/// The recent-file objects of the array body `a` from index `i` on, appended
/// to `acc`; objects without both fields are skipped.
pub open spec fn recent_entries(a: Seq<char>, i: int, acc: Seq<(Seq<char>, u64)>) -> Seq<
    (Seq<char>, u64),
>
    decreases a.len() - i,
{
    if i < 0 {
        acc
    } else {
        match find_char_from(a, '{', i) {
            None => acc,
            Some(s0) => match matching_close(a, s0, false) {
                None => acc,
                Some(e) => {
                    proof {
                        lemma_find_char_from_bounds(a, '{', i);
                        lemma_close_scan_bounds(a, s0, 0, false, false, false);
                    }
                    let obj = a.subrange(s0 + 1, e);
                    let acc2 = match (entry_path(obj), entry_opened_at(obj)) {
                        (Some(p), Some(t)) => acc.push((p, t)),
                        _ => acc,
                    };
                    recent_entries(a, e + 1, acc2)
                },
            },
        }
    }
}

/// The `recent_files` list of the file body `c`; empty when the field is
/// absent or not an array.
pub open spec fn field_recent_files(c: Seq<char>) -> Seq<(Seq<char>, u64)> {
    match lookup_field(c, "\"recent_files\""@) {
        Some(Some(v)) => if v < c.len() && c[v] == '[' {
            match matching_close(c, v, true) {
                Some(e) => recent_entries(c.subrange(v + 1, e), 0, Seq::empty()),
                None => Seq::empty(),
            }
        } else {
            Seq::empty()
        },
        _ => Seq::empty(),
    }
}

// ---------------------------------------------------------------------------
// The whole file
// ---------------------------------------------------------------------------

/// The fields of a non-empty object body `c`, missing ones taken from `d`.
pub open spec fn parse_fields(c: Seq<char>, d: ConfigView) -> Option<ConfigView> {
    let ww = field_bool(c, "\"word_wrap\""@, d.word_wrap);
    let iwt = field_bool(c, "\"indent_with_tabs\""@, d.indent_with_tabs);
    let crlf = field_bool(c, "\"newline_crlf\""@, d.newline_crlf);
    let ts = field_u8(c, "\"tab_size\""@, d.tab_size, 1, 8);
    let ln = field_bool(c, "\"line_numbers\""@, d.line_numbers);
    let lh = field_bool(c, "\"line_highlight\""@, d.line_highlight);
    let ifn = field_bool(c, "\"insert_final_newline\""@, d.insert_final_newline);
    let rc = field_u8(c, "\"ruler_column\""@, d.ruler_column, 0, 255);
    if ww is Some && iwt is Some && crlf is Some && ts is Some && ln is Some && lh is Some
        && ifn is Some && rc is Some {
        Some(
            ConfigView {
                word_wrap: ww->0,
                indent_with_tabs: iwt->0,
                tab_size: ts->0,
                newline_crlf: crlf->0,
                line_numbers: ln->0,
                line_highlight: lh->0,
                insert_final_newline: ifn->0,
                ruler_column: rc->0,
                project_folders: field_project_folders(c),
                recent_files: newest_first(field_recent_files(c)),
            },
        )
    } else {
        None
    }
}

/// What the configuration file `json` parses to, with defaults `d`: `None`
/// for a file that is not an object or holds an invalid field value.
pub open spec fn parse_config(json: Seq<char>, d: ConfigView) -> Option<ConfigView> {
    let j = trim(strip_comments(json));
    if !(j.len() > 0 && j[0] == '{' && j[j.len() - 1] == '}') {
        None
    } else {
        let c = trim(j.subrange(1, j.len() - 1));
        if c.len() == 0 {
            Some(d)
        } else if !c.contains('"') {
            None
        } else {
            parse_fields(c, d)
        }
    }
}

// ---------------------------------------------------------------------------
// Executable scanners
// ---------------------------------------------------------------------------

/// Whether the line `l` is a comment line.
pub fn is_comment_line_exec(l: &[char]) -> (r: bool)
    ensures
        r == is_comment_line(l@),
{
    let p = skip_ws_exec(l, 0);
    proof {
        lemma_skip_ws_bounds(l@, 0);
    }
    let n = l.len();
    let r = p < n && n - p >= 2 && l[p] == '/' && l[p + 1] == '/';
    proof {
        let t = trim_start(l@);
        if r {
            assert(t.subrange(0, 2) =~= seq!['/', '/']);
        } else if starts_with(t, seq!['/', '/']) {
            assert(t.subrange(0, 2)[0] == t[0]);
            assert(t.subrange(0, 2)[1] == t[1]);
        }
    }
    r
}

/// `s` with comment lines emptied (see `strip_comments`).
pub fn strip_comments_exec(s: &[char]) -> (r: Vec<char>)
    ensures
        r@ == strip_comments(s@),
{
    let mut out: Vec<char> = Vec::new();
    let mut i: usize = 0;
    loop
        invariant
            i <= s@.len(),
            strip_from(s@, 0) == out@ + strip_from(s@, i as int),
        decreases s@.len() - i,
    {
        proof {
            lemma_find_char_from_bounds(s@, '\n', i as int);
        }
        match find_char_exec(s, '\n', i) {
            None => {
                let line = subseq(s, i, s.len());
                if !is_comment_line_exec(line.as_slice()) {
                    push_all(&mut out, line.as_slice());
                } else {
                    assert(out@ + Seq::<char>::empty() =~= out@);
                }
                return out;
            },
            Some(k) => {
                let le = if k > i && s[k - 1] == '\r' {
                    k - 1
                } else {
                    k
                };
                let line = subseq(s, i, le);
                assert(line@ == line_before_newline(s@, i as int, k as int));
                let ghost before = out@;
                if !is_comment_line_exec(line.as_slice()) {
                    push_all(&mut out, line.as_slice());
                }
                assert(out@ == before + keep_line(line@)) by {
                    if is_comment_line(line@) {
                        assert(before + Seq::<char>::empty() =~= before);
                    }
                }
                if k >= s.len() - 1 {
                    return out;
                }
                out.push('\n');
                assert(before + (keep_line(line@) + seq!['\n'] + strip_from(s@, k + 1)) =~= out@
                    + strip_from(s@, k + 1));
                i = k + 1;
            },
        }
    }
}

/// `s` without leading or trailing whitespace.
pub fn trim_exec(s: &[char]) -> (r: Vec<char>)
    ensures
        r@ == trim(s@),
{
    let b = skip_ws_back_exec(s, s.len());
    proof {
        lemma_skip_ws_back_bounds(s@, s@.len() as int);
    }
    let te = subseq(s, 0, b);
    let a = skip_ws_exec(te.as_slice(), 0);
    proof {
        lemma_skip_ws_bounds(te@, 0);
    }
    subseq(te.as_slice(), a, te.len())
}

/// Where the value of the field quoted as `key` starts (see `lookup_field`).
pub fn lookup_field_exec(c: &[char], key: &[char]) -> (r: Option<Option<usize>>)
    ensures
        match r {
            None => lookup_field(c@, key@) is None,
            Some(None) => lookup_field(c@, key@) == Some(None::<int>),
            Some(Some(v)) => lookup_field(c@, key@) == Some(Some(v as int)),
        },
        r matches Some(Some(v)) ==> v <= c@.len(),
        lookup_field(c@, key@) matches Some(Some(v)) ==> 0 <= v <= c@.len(),
{
    let n = c.len();
    proof {
        lemma_find_from_bounds(c@, key@, 0);
    }
    match find_from_exec(c, key, 0) {
        None => None,
        Some(pos) => {
            assert(pos + key@.len() <= n);
            let r = skip_ws_exec(c, pos + key.len());
            proof {
                lemma_skip_ws_bounds(c@, pos + key@.len());
            }
            if r < c.len() && c[r] == ':' {
                proof {
                    lemma_skip_ws_bounds(c@, r + 1);
                }
                Some(Some(skip_ws_exec(c, r + 1)))
            } else {
                Some(None)
            }
        },
    }
}

/// A boolean field (see `field_bool`).
pub fn field_bool_exec(c: &[char], key: &str, default: bool) -> (r: Option<bool>)
    ensures
        r == field_bool(c@, key@, default),
{
    let k = chars_of(key);
    match lookup_field_exec(c, k.as_slice()) {
        None => Some(default),
        Some(None) => None,
        Some(Some(v)) => {
            let t = chars_of("true");
            let f = chars_of("false");
            proof {
                reveal_strlit("true");
                reveal_strlit("false");
                assert(t@ =~= seq!['t', 'r', 'u', 'e']);
                assert(f@ =~= seq!['f', 'a', 'l', 's', 'e']);
            }
            if matches_at_exec(c, t.as_slice(), v) {
                Some(true)
            } else if matches_at_exec(c, f.as_slice(), v) {
                Some(false)
            } else {
                None
            }
        },
    }
}

/// The value of the digits `c[v..e]` when it fits in a `u64`.
pub fn digits_u64(c: &[char], v: usize, e: usize) -> (r: Option<u64>)
    requires
        v <= e <= c@.len(),
        forall|k: int| v <= k < e ==> is_digit(#[trigger] c@[k]),
    ensures
        match r {
            Some(n) => n == digits_value(c@, v as int, e as int),
            None => digits_value(c@, v as int, e as int) > u64::MAX,
        },
{
    let mut acc: u128 = 0;
    let mut k = v;
    while k < e
        invariant
            v <= k <= e <= c@.len(),
            forall|m: int| v <= m < e ==> is_digit(#[trigger] c@[m]),
            acc == digits_value(c@, v as int, k as int),
            acc <= u64::MAX,
        decreases e - k,
    {
        let d = (c[k] as u32 - '0' as u32) as u128;
        assert(is_digit(c@[k as int]));
        assert(d == digit_value(c@[k as int]));
        let next = acc * 10 + d;
        k += 1;
        assert(next == digits_value(c@, v as int, k as int));
        if next > u64::MAX as u128 {
            proof {
                lemma_digits_value_mono(c@, v as int, k as int, e as int);
            }
            return None;
        }
        acc = next;
    }
    Some(acc as u64)
}

/// A small integer field (see `field_u8`).
pub fn field_u8_exec(c: &[char], key: &str, default: u8, min: u8, max: u8) -> (r: Option<u8>)
    ensures
        r == field_u8(c@, key@, default, min, max),
{
    let k = chars_of(key);
    match lookup_field_exec(c, k.as_slice()) {
        None => Some(default),
        Some(None) => None,
        Some(Some(v)) => {
            let e = digits_end_exec(c, v);
            proof {
                lemma_digits_end_bounds(c@, v as int);
            }
            if e == v {
                return None;
            }
            match digits_u64(c, v, e) {
                Some(n) => {
                    if n <= 255 && min as u64 <= n && n <= max as u64 {
                        Some(n as u8)
                    } else {
                        None
                    }
                },
                None => None,
            }
        },
    }
}

/// The index of the closer matching the opener at `start` (see `matching_close`).
pub fn find_close(s: &[char], start: usize, brackets: bool) -> (r: Option<usize>)
    requires
        start < s@.len(),
        is_open(s@[start as int], brackets),
    ensures
        match r {
            Some(k) => matching_close(s@, start as int, brackets) == Some(k as int),
            None => matching_close(s@, start as int, brackets) is None,
        },
        r matches Some(k) ==> start < k < s@.len(),
{
    let mut depth: usize = 1;
    let mut in_str = false;
    let mut esc = false;
    let n = s.len();
    let mut i = start + 1;
    while i < s.len()
        invariant
            start < i <= s@.len(),
            1 <= depth <= i - start,
            matching_close(s@, start as int, brackets) == close_scan(
                s@,
                i as int,
                depth as int,
                in_str,
                esc,
                brackets,
            ),
        decreases s.len() - i,
    {
        let c = s[i];
        if esc {
            esc = false;
        } else if c == '\\' && in_str {
            esc = true;
        } else if c == '"' {
            in_str = !in_str;
        } else if (c == '{' || (brackets && c == '[')) && !in_str {
            depth += 1;
        } else if (c == '}' || (brackets && c == ']')) && !in_str {
            if depth - 1 == 0 {
                return Some(i);
            }
            depth -= 1;
        }
        i += 1;
    }
    None
}

} // verus!
