//! The two list sections of the configuration file read back as written:
//! the `project_folders` object and the `recent_files` array.
use vstd::prelude::*;

use crate::config_parse::{
    close_scan, entry_opened_at, entry_path, folder_entries, lookup_field, matching_close,
    recent_entries,
};
use crate::config_write::{
    folder_entry, folder_lines, folders_json, recent_entry, recent_json, recent_lines,
};
use crate::escaped::{
    ends_with, lemma_close_scan_string, lemma_escape_json_empty, lemma_name_in_string_closes,
    lemma_no_name_in_string, plain_name, quote, quoted,
};
use crate::folders::{insert_pair, key_index, keys_unique};
use crate::json_string::{escape_char, escape_json, lemma_read_escaped, read_string};
use crate::text::{
    decimal, digits_end, digits_value, find_char_from, is_digit, is_ws, lemma_decimal_digits,
    lemma_find_from_is, matches_at, skip_ws,
};

verus! {

/// No quote, brace or bracket at the indices `i..j` of `s`.
pub open spec fn inert(s: Seq<char>, i: int, j: int) -> bool {
    forall|m: int|
        i <= m < j ==> #[trigger] s[m] != '"' && s[m] != '{' && s[m] != '}' && s[m] != '['
            && s[m] != ']'
}

/// `t` stands in `s` at index `i`.
pub open spec fn at(s: Seq<char>, i: int, t: Seq<char>) -> bool {
    0 <= i && i + t.len() <= s.len() && s.subrange(i, i + t.len()) == t
}

pub proof fn lemma_at_index(s: Seq<char>, i: int, t: Seq<char>, k: int)
    requires
        at(s, i, t),
        0 <= k < t.len(),
    ensures
        s[i + k] == t[k],
{
    assert(s[i + k] == s.subrange(i, i + t.len())[k]);
}

/// The text `a + b` stands at `i` exactly when `a` does and `b` follows it.
pub proof fn lemma_at_concat(s: Seq<char>, i: int, a: Seq<char>, b: Seq<char>)
    requires
        at(s, i, a + b),
    ensures
        at(s, i, a),
        at(s, i + a.len(), b),
{
    let w = s.subrange(i, i + a.len() + b.len());
    assert(w == a + b);
    assert forall|k: int| 0 <= k < a.len() implies s.subrange(i, i + a.len())[k] == a[k] by {
        assert(s[i + k] == w[k]);
        assert(w[k] == (a + b)[k]);
    }
    assert(s.subrange(i, i + a.len()) =~= a);
    assert forall|k: int| 0 <= k < b.len() implies s.subrange(
        i + a.len(),
        i + a.len() + b.len(),
    )[k] == b[k] by {
        assert(s[i + a.len() + k] == w[a.len() + k]);
        assert(w[a.len() + k] == (a + b)[a.len() + k]);
    }
    assert(s.subrange(i + a.len(), i + a.len() + b.len()) =~= b);
}

pub proof fn lemma_find_char_is(s: Seq<char>, c: char, i: int, q: int)
    requires
        0 <= i <= q < s.len(),
        s[q] == c,
        forall|m: int| i <= m < q ==> s[m] != c,
    ensures
        find_char_from(s, c, i) == Some(q),
    decreases q - i,
{
    if i < q {
        lemma_find_char_is(s, c, i + 1, q);
    }
}

pub proof fn lemma_find_char_none(s: Seq<char>, c: char, i: int)
    requires
        0 <= i,
        forall|m: int| i <= m < s.len() ==> s[m] != c,
    ensures
        find_char_from(s, c, i) is None,
    decreases s.len() - i,
{
    if i < s.len() {
        lemma_find_char_none(s, c, i + 1);
    }
}

/// The bracket scanner steps over inert text.
pub proof fn lemma_close_scan_inert(
    s: Seq<char>,
    i: int,
    j: int,
    depth: int,
    brackets: bool,
)
    requires
        0 <= i <= j <= s.len(),
        inert(s, i, j),
    ensures
        close_scan(s, i, depth, false, false, brackets) == close_scan(
            s,
            j,
            depth,
            false,
            false,
            brackets,
        ),
    decreases j - i,
{
    if i < j {
        assert(s[i] != '"' && s[i] != '{' && s[i] != '}' && s[i] != '[' && s[i] != ']');
        lemma_close_scan_inert(s, i + 1, j, depth, brackets);
    }
}

// ---------------------------------------------------------------------------
// project_folders
// ---------------------------------------------------------------------------

/// The scanner steps over one line of the folder table.
proof fn lemma_close_scan_folder_entry(
    s: Seq<char>,
    i: int,
    e: (Seq<char>, Seq<char>),
    depth: int,
    brackets: bool,
)
    requires
        at(s, i, folder_entry(e)),
    ensures
        close_scan(s, i, depth, false, false, brackets) == close_scan(
            s,
            i + folder_entry(e).len(),
            depth,
            false,
            false,
            brackets,
        ),
{
    let ek = escape_json(e.0);
    let ev = escape_json(e.1);
    let a = "    "@;
    let b = ": "@;
    reveal_strlit("    \"");
    reveal_strlit("\": \"");
    reveal_strlit("\"");
    reveal_strlit("    ");
    reveal_strlit(": ");
    assert(folder_entry(e) =~= a + quoted(ek) + b + quoted(ev));
    lemma_at_concat(s, i, a + quoted(ek) + b, quoted(ev));
    lemma_at_concat(s, i, a + quoted(ek), b);
    lemma_at_concat(s, i, a, quoted(ek));
    reveal_strlit("    ");
    reveal_strlit(": ");
    let p1 = i + 4;
    let p2 = p1 + ek.len() + 2;
    let p3 = p2 + 2;
    assert forall|m: int| i <= m < p1 implies #[trigger] s[m] == ' ' by {
        lemma_at_index(s, i, a, m - i);
    }
    lemma_close_scan_inert(s, i, p1, depth, brackets);
    lemma_close_scan_string(s, p1, e.0, depth, brackets);
    lemma_at_index(s, p2, b, 0);
    lemma_at_index(s, p2, b, 1);
    lemma_close_scan_inert(s, p2, p3, depth, brackets);
    lemma_close_scan_string(s, p3, e.1, depth, brackets);
}

/// The scanner steps over all the lines of the folder table.
proof fn lemma_close_scan_folder_lines(
    s: Seq<char>,
    i: int,
    f: Seq<(Seq<char>, Seq<char>)>,
    depth: int,
    brackets: bool,
)
    requires
        at(s, i, folder_lines(f)),
    ensures
        close_scan(s, i, depth, false, false, brackets) == close_scan(
            s,
            i + folder_lines(f).len(),
            depth,
            false,
            false,
            brackets,
        ),
    decreases f.len(),
{
    if f.len() == 1 {
        lemma_close_scan_folder_entry(s, i, f[0], depth, brackets);
    } else if f.len() > 1 {
        let fp = f.drop_last();
        let sep = ",\n"@;
        reveal_strlit(",\n");
        assert(folder_lines(f) == folder_lines(fp) + sep + folder_entry(f.last()));
        lemma_at_concat(s, i, folder_lines(fp) + sep, folder_entry(f.last()));
        lemma_at_concat(s, i, folder_lines(fp), sep);
        let j = i + folder_lines(fp).len();
        lemma_close_scan_folder_lines(s, i, fp, depth, brackets);
        lemma_at_index(s, j, sep, 0);
        lemma_at_index(s, j, sep, 1);
        lemma_close_scan_inert(s, j, j + 2, depth, brackets);
        lemma_close_scan_folder_entry(s, j + 2, f.last(), depth, brackets);
    }
}

/// The folder table written at `i` is closed by its last character.
pub proof fn lemma_folders_close(s: Seq<char>, i: int, f: Seq<(Seq<char>, Seq<char>)>)
    requires
        at(s, i, folders_json(f)),
    ensures
        matching_close(s, i, false) == Some(i + folders_json(f).len() - 1),
{
    let fj = folders_json(f);
    if f.len() == 0 {
        reveal_strlit("{}");
        lemma_at_index(s, i, fj, 0);
        lemma_at_index(s, i, fj, 1);
        assert(close_scan(s, i, 0, false, false, false) == close_scan(
            s,
            i + 1,
            1,
            false,
            false,
            false,
        ));
    } else {
        let a = "{\n"@;
        let z = "\n  }"@;
        reveal_strlit("{\n");
        reveal_strlit("\n  }");
        assert(fj == a + folder_lines(f) + z);
        lemma_at_concat(s, i, a + folder_lines(f), z);
        lemma_at_concat(s, i, a, folder_lines(f));
        lemma_at_index(s, i, a, 0);
        lemma_at_index(s, i, a, 1);
        let j = i + 2 + folder_lines(f).len();
        assert forall|k: int| 0 <= k < 4 implies #[trigger] s[j + k] == z[k] by {
            lemma_at_index(s, j, z, k);
        }
        assert(close_scan(s, i, 0, false, false, false) == close_scan(
            s,
            i + 1,
            1,
            false,
            false,
            false,
        ));
        lemma_close_scan_inert(s, i + 1, i + 2, 1, false);
        lemma_close_scan_folder_lines(s, i + 2, f, 1, false);
        assert(inert(s, j, j + 3)) by {
            assert forall|m: int| j <= m < j + 3 implies #[trigger] s[m] == z[m - j] by {
                lemma_at_index(s, j, z, m - j);
            }
        }
        lemma_close_scan_inert(s, j, j + 3, 1, false);
        assert(s[j + 3] == '}');
    }
}

/// A written string is read back, up to its closing quote.
pub proof fn lemma_read_quoted(o: Seq<char>, q: int, x: Seq<char>)
    requires
        at(o, q, quoted(escape_json(x))),
    ensures
        read_string(o, q + 1) == (x, Some(q + 1 + escape_json(x).len())),
{
    let e = escape_json(x);
    let ce = q + 1 + e.len();
    let pre = o.subrange(0, q + 1);
    let post = o.subrange(ce + 1, o.len() as int);
    let w = pre + e + quote() + post;
    assert forall|k: int| 0 <= k < o.len() implies o[k] == w[k] by {
        if k <= q {
        } else if k < ce {
            lemma_at_index(o, q, quoted(e), k - q);
            assert(quoted(e)[k - q] == e[k - q - 1]);
        } else if k == ce {
            lemma_at_index(o, q, quoted(e), k - q);
        }
    }
    assert(o =~= w);
    lemma_read_escaped(pre, x, post);
}

/// One step of the folder reader: a written pair is read back and recorded.
proof fn lemma_folder_entries_step(
    o: Seq<char>,
    i: int,
    a: int,
    e: (Seq<char>, Seq<char>),
    m0: Seq<(Seq<char>, Seq<char>)>,
)
    requires
        0 <= i <= a,
        at(o, a, folder_entry(e)),
        forall|m: int| i <= m < a ==> o[m] != '"',
    ensures
        folder_entries(o, i, m0) == folder_entries(
            o,
            a + folder_entry(e).len(),
            insert_pair(m0, e.0, e.1),
        ),
{
    let ek = escape_json(e.0);
    let ev = escape_json(e.1);
    let sp = "    "@;
    let b = ": "@;
    reveal_strlit("    \"");
    reveal_strlit("\": \"");
    reveal_strlit("\"");
    reveal_strlit("    ");
    reveal_strlit(": ");
    assert(folder_entry(e) =~= sp + quoted(ek) + b + quoted(ev));
    lemma_at_concat(o, a, sp + quoted(ek) + b, quoted(ev));
    lemma_at_concat(o, a, sp + quoted(ek), b);
    lemma_at_concat(o, a, sp, quoted(ek));
    let q = a + 4;
    assert forall|m: int| a <= m < q implies #[trigger] o[m] == ' ' by {
        lemma_at_index(o, a, sp, m - a);
    }
    lemma_at_index(o, q, quoted(ek), 0);
    lemma_find_char_is(o, '"', i, q);
    // the key
    let ke = q + 1 + ek.len();
    lemma_read_quoted(o, q, e.0);
    assert(read_string(o, q + 1) == (e.0, Some(ke)));
    lemma_escape_json_empty(e.0);
    // the colon
    let r = ke + 1;
    lemma_at_index(o, r, b, 0);
    lemma_at_index(o, r, b, 1);
    assert(skip_ws(o, r) == r);
    assert(!is_ws(o[r + 1]) ==> false);
    assert(skip_ws(o, r + 1) == skip_ws(o, r + 2));
    let r2 = r + 2;
    lemma_at_index(o, r2, quoted(ev), 0);
    assert(skip_ws(o, r2) == r2);
    // the value
    let ve = r2 + 1 + ev.len();
    lemma_read_quoted(o, r2, e.1);
    assert(read_string(o, r2 + 1) == (e.1, Some(ve)));
    lemma_escape_json_empty(e.1);
    assert(ve + 1 == a + folder_entry(e).len());
}

/// The folder reader records every written pair, in order.
proof fn lemma_folder_entries_lines(
    o: Seq<char>,
    i: int,
    a: int,
    f: Seq<(Seq<char>, Seq<char>)>,
    m0: Seq<(Seq<char>, Seq<char>)>,
)
    requires
        0 <= i <= a,
        f.len() > 0,
        at(o, a, folder_lines(f)),
        forall|m: int| i <= m < a ==> o[m] != '"',
        keys_unique(m0 + f),
    ensures
        folder_entries(o, i, m0) == folder_entries(o, a + folder_lines(f).len(), m0 + f),
    decreases f.len(),
{
    let x = f.last();
    let fp = f.drop_last();
    assert(x == f[f.len() - 1]);
    if f.len() == 1 {
        assert(folder_lines(f) == folder_entry(f[0]));
        lemma_folder_entries_step(o, i, a, x, m0);
        assert(key_index(m0, x.0) is None) by {
            assert forall|k: int| 0 <= k < m0.len() implies (#[trigger] m0[k]).0 != x.0 by {
                assert((m0 + f)[k] == m0[k]);
                assert((m0 + f)[m0.len() as int] == x);
            }
        }
        assert(m0 + f =~= m0.push(x));
    } else {
        let sep = ",\n"@;
        reveal_strlit(",\n");
        assert(folder_lines(f) == folder_lines(fp) + sep + folder_entry(x));
        lemma_at_concat(o, a, folder_lines(fp) + sep, folder_entry(x));
        lemma_at_concat(o, a, folder_lines(fp), sep);
        assert(keys_unique(m0 + fp)) by {
            assert forall|p: int, q: int| 0 <= p < q < (m0 + fp).len() implies (#[trigger] (m0
                + fp)[p]).0 != (#[trigger] (m0 + fp)[q]).0 by {
                assert((m0 + fp)[p] == (m0 + f)[p]);
                assert((m0 + fp)[q] == (m0 + f)[q]);
            }
        }
        lemma_folder_entries_lines(o, i, a, fp, m0);
        let j = a + folder_lines(fp).len();
        lemma_at_index(o, j, sep, 0);
        lemma_at_index(o, j, sep, 1);
        lemma_folder_entries_step(o, j, j + 2, x, m0 + fp);
        assert(key_index(m0 + fp, x.0) is None) by {
            assert forall|k: int| 0 <= k < (m0 + fp).len() implies (#[trigger] (m0 + fp)[k]).0
                != x.0 by {
                assert((m0 + fp)[k] == (m0 + f)[k]);
                assert((m0 + f)[(m0 + f).len() - 1] == x);
            }
        }
        assert(m0 + f =~= (m0 + fp).push(x));
    }
}

/// The body of a written folder table reads back as the table, given
/// distinct projects.
#[verifier::spinoff_prover]
#[verifier::rlimit(40)]
pub proof fn lemma_folders_read_back(f: Seq<(Seq<char>, Seq<char>)>)
    requires
        keys_unique(f),
    ensures
        folder_entries(
            folders_json(f).subrange(1, folders_json(f).len() - 1),
            0,
            Seq::empty(),
        ) == f,
{
    let fj = folders_json(f);
    let o = fj.subrange(1, fj.len() - 1);
    if f.len() == 0 {
        reveal_strlit("{}");
        assert(o.len() == 0);
        assert(f =~= Seq::<(Seq<char>, Seq<char>)>::empty());
    } else {
        let a = "{\n"@;
        let z = "\n  }"@;
        let t = "\n  "@;
        reveal_strlit("{\n");
        reveal_strlit("\n  }");
        reveal_strlit("\n  ");
        let fl = folder_lines(f);
        assert(fj == a + fl + z);
        assert(o =~= seq!['\n'] + fl + t) by {
            assert forall|k: int| 0 <= k < o.len() implies o[k] == (seq!['\n'] + fl + t)[k] by {
                assert(o[k] == fj[k + 1]);
                if k == 0 {
                } else if k < 1 + fl.len() {
                    assert(fj[k + 1] == fl[k - 1]);
                } else {
                    assert(fj[k + 1] == z[k + 1 - 2 - fl.len()]);
                }
            }
        }
        assert(at(o, 0, seq!['\n'] + fl + t)) by {
            assert(o.subrange(0, o.len() as int) =~= o);
        }
        lemma_at_concat(o, 0, seq!['\n'] + fl, t);
        lemma_at_concat(o, 0, seq!['\n'], fl);
        lemma_at_index(o, 0, seq!['\n'], 0);
        let e: Seq<(Seq<char>, Seq<char>)> = Seq::empty();
        assert(e + f =~= f);
        lemma_folder_entries_lines(o, 0, 1, f, e);
        let end = 1 + folder_lines(f).len() as int;
        assert forall|m: int| end <= m < o.len() implies o[m] != '"' by {
            lemma_at_index(o, end, t, m - end);
        }
        lemma_find_char_none(o, '"', end);
    }
}

// ---------------------------------------------------------------------------
// recent_files
// ---------------------------------------------------------------------------

/// Text that escaping leaves as it is.
pub proof fn lemma_escape_plain(t: Seq<char>)
    requires
        forall|i: int|
            0 <= i < t.len() ==> #[trigger] t[i] != '"' && t[i] != '\\' && t[i] != '\n' && t[i]
                != '\r' && t[i] != '\t',
    ensures
        escape_json(t) == t,
    decreases t.len(),
{
    if t.len() > 0 {
        let r = t.drop_first();
        assert forall|i: int| 0 <= i < r.len() implies #[trigger] r[i] != '"' && r[i] != '\\'
            && r[i] != '\n' && r[i] != '\r' && r[i] != '\t' by {
            assert(r[i] == t[i + 1]);
        }
        lemma_escape_plain(r);
        assert(escape_char(t[0]) =~= seq![t[0]]);
        assert(t =~= seq![t[0]] + r);
    }
}

/// No match of `key` at `j` where the text differs from it at offset `k`.
pub proof fn lemma_no_match_at(s: Seq<char>, key: Seq<char>, j: int, k: int)
    requires
        0 <= k < key.len(),
        0 <= j + k < s.len(),
        s[j + k] != key[k],
    ensures
        !matches_at(s, key, j),
{
    if matches_at(s, key, j) {
        assert(s.subrange(j, j + key.len())[k] == s[j + k]);
    }
}

/// A number written in decimal reads back, when no digit follows it.
pub proof fn lemma_read_decimal(s: Seq<char>, v: int, n: nat)
    requires
        at(s, v, decimal(n)),
        v + decimal(n).len() < s.len() ==> !is_digit(s[v + decimal(n).len()]),
    ensures
        digits_end(s, v) == v + decimal(n).len(),
        digits_value(s, v, v + decimal(n).len()) == n,
{
    let d = decimal(n);
    lemma_decimal_digits(n);
    assert forall|k: int| 0 <= k < d.len() implies #[trigger] s[v + k] == d[k] by {
        lemma_at_index(s, v, d, k);
    }
    assert forall|k: int| v <= k < v + d.len() implies is_digit(#[trigger] s[k]) by {
        lemma_at_index(s, v, d, k - v);
    }
    lemma_digits_end_run(s, v, v + d.len());
    lemma_digits_value_shift(s, v, d, d.len() as int);
}

proof fn lemma_digits_end_run(s: Seq<char>, i: int, e: int)
    requires
        0 <= i <= e <= s.len(),
        forall|k: int| i <= k < e ==> is_digit(#[trigger] s[k]),
        e < s.len() ==> !is_digit(s[e]),
    ensures
        digits_end(s, i) == e,
    decreases e - i,
{
    if i < e {
        lemma_digits_end_run(s, i + 1, e);
    }
}

proof fn lemma_digits_value_shift(s: Seq<char>, v: int, d: Seq<char>, k: int)
    requires
        0 <= v,
        0 <= k <= d.len(),
        v + d.len() <= s.len(),
        forall|m: int| 0 <= m < d.len() ==> #[trigger] s[v + m] == d[m],
    ensures
        digits_value(s, v, v + k) == digits_value(d, 0, k),
    decreases k,
{
    if k > 0 {
        lemma_digits_value_shift(s, v, d, k - 1);
        assert(s[v + k - 1] == d[k - 1]);
    }
}

/// The body of one recent-file object: the text between its braces.
pub open spec fn recent_body(r: (Seq<char>, u64)) -> Seq<char> {
    " \"path\": "@ + quoted(escape_json(r.0)) + ", \"opened_at\": "@ + decimal(r.1 as nat) + " "@
}

proof fn lemma_recent_entry_parts(r: (Seq<char>, u64))
    ensures
        recent_entry(r) == "    "@ + seq!['{'] + recent_body(r) + seq!['}'],
        " \"path\": "@ == seq![' '] + quoted("path"@) + ": "@,
        ", \"opened_at\": "@ == ", "@ + quoted("opened_at"@) + ": "@,
        escape_json("path"@) == "path"@,
        escape_json("opened_at"@) == "opened_at"@,
{
    reveal_strlit("    { \"path\": \"");
    reveal_strlit("\", \"opened_at\": ");
    reveal_strlit(" }");
    reveal_strlit("    ");
    reveal_strlit(" \"path\": ");
    reveal_strlit(", \"opened_at\": ");
    reveal_strlit(" ");
    reveal_strlit("path");
    reveal_strlit("opened_at");
    reveal_strlit(": ");
    reveal_strlit(", ");
    assert(recent_entry(r) =~= "    "@ + seq!['{'] + recent_body(r) + seq!['}']);
    assert(" \"path\": "@ =~= seq![' '] + quoted("path"@) + ": "@);
    assert(", \"opened_at\": "@ =~= ", "@ + quoted("opened_at"@) + ": "@);
    lemma_escape_plain("path"@);
    lemma_escape_plain("opened_at"@);
}

/// Where the parts of a recent-file object body stand.
proof fn lemma_recent_body_layout(s: Seq<char>, i: int, r: (Seq<char>, u64))
    requires
        at(s, i, recent_body(r)),
    ensures
        recent_body(r).len() == 27 + escape_json(r.0).len() + decimal(r.1 as nat).len(),
        s[i] == ' ',
        at(s, i + 1, quoted("path"@)),
        at(s, i + 7, ": "@),
        at(s, i + 9, quoted(escape_json(r.0))),
        at(s, i + 11 + escape_json(r.0).len(), ", "@),
        at(s, i + 13 + escape_json(r.0).len(), quoted("opened_at"@)),
        at(s, i + 24 + escape_json(r.0).len(), ": "@),
        at(s, i + 26 + escape_json(r.0).len(), decimal(r.1 as nat)),
        s[i + 26 + escape_json(r.0).len() + decimal(r.1 as nat).len()] == ' ',
{
    lemma_recent_entry_parts(r);
    let e = escape_json(r.0);
    let d = decimal(r.1 as nat);
    let c = ": "@;
    let cm = ", "@;
    reveal_strlit(": ");
    reveal_strlit(", ");
    reveal_strlit(" ");
    reveal_strlit("path");
    reveal_strlit("opened_at");
    let body = recent_body(r);
    assert(body =~= seq![' '] + quoted("path"@) + c + quoted(e) + cm + quoted("opened_at"@) + c + d
        + " "@);
    lemma_at_concat(s, i, seq![' '] + quoted("path"@) + c + quoted(e) + cm + quoted("opened_at"@)
        + c + d, " "@);
    lemma_at_concat(s, i, seq![' '] + quoted("path"@) + c + quoted(e) + cm + quoted("opened_at"@)
        + c, d);
    lemma_at_concat(s, i, seq![' '] + quoted("path"@) + c + quoted(e) + cm + quoted("opened_at"@),
        c);
    lemma_at_concat(s, i, seq![' '] + quoted("path"@) + c + quoted(e) + cm, quoted("opened_at"@));
    lemma_at_concat(s, i, seq![' '] + quoted("path"@) + c + quoted(e), cm);
    lemma_at_concat(s, i, seq![' '] + quoted("path"@) + c, quoted(e));
    lemma_at_concat(s, i, seq![' '] + quoted("path"@), c);
    lemma_at_concat(s, i, seq![' '], quoted("path"@));
    lemma_at_index(s, i, seq![' '], 0);
    lemma_at_index(s, i + 26 + e.len() + d.len(), " "@, 0);
}

/// The scanner steps over the body of a recent-file object.
proof fn lemma_close_scan_recent_body(
    s: Seq<char>,
    i: int,
    r: (Seq<char>, u64),
    depth: int,
    brackets: bool,
)
    requires
        at(s, i, recent_body(r)),
    ensures
        close_scan(s, i, depth, false, false, brackets) == close_scan(
            s,
            i + recent_body(r).len(),
            depth,
            false,
            false,
            brackets,
        ),
{
    lemma_recent_body_layout(s, i, r);
    let e = escape_json(r.0);
    let d = decimal(r.1 as nat);
    let c = ": "@;
    let cm = ", "@;
    reveal_strlit(": ");
    reveal_strlit(", ");
    lemma_recent_entry_parts(r);
    reveal_strlit("path");
    reveal_strlit("opened_at");
    let p1 = i + 1;
    let p2 = p1 + 6;
    let p3 = p2 + 2;
    let p4 = p3 + e.len() + 2;
    let p5 = p4 + 2;
    let p6 = p5 + 11;
    let p7 = p6 + 2;
    let p8 = p7 + d.len();
    lemma_close_scan_inert(s, i, p1, depth, brackets);
    lemma_close_scan_string(s, p1, "path"@, depth, brackets);
    assert(inert(s, p2, p3)) by {
        assert forall|m: int| p2 <= m < p3 implies #[trigger] s[m] == c[m - p2] by {
            lemma_at_index(s, p2, c, m - p2);
        }
    }
    lemma_close_scan_inert(s, p2, p3, depth, brackets);
    lemma_close_scan_string(s, p3, r.0, depth, brackets);
    assert(inert(s, p4, p5)) by {
        assert forall|m: int| p4 <= m < p5 implies #[trigger] s[m] == cm[m - p4] by {
            lemma_at_index(s, p4, cm, m - p4);
        }
    }
    lemma_close_scan_inert(s, p4, p5, depth, brackets);
    lemma_close_scan_string(s, p5, "opened_at"@, depth, brackets);
    lemma_decimal_digits(r.1 as nat);
    assert(inert(s, p6, p8 + 1)) by {
        assert forall|m: int| p6 <= m < p8 + 1 implies #[trigger] s[m] != '"' && s[m] != '{'
            && s[m] != '}' && s[m] != '[' && s[m] != ']' by {
            if m < p7 {
                lemma_at_index(s, p6, c, m - p6);
            } else if m < p8 {
                lemma_at_index(s, p7, d, m - p7);
                assert(is_digit(d[m - p7]));
            }
        }
    }
    lemma_close_scan_inert(s, p6, p8 + 1, depth, brackets);
}

/// The scanner steps over one written recent-file line inside an open
/// bracket, and its object is closed by the line's last brace.
proof fn lemma_close_scan_recent_entry(
    s: Seq<char>,
    i: int,
    r: (Seq<char>, u64),
    depth: int,
)
    requires
        at(s, i, recent_entry(r)),
        depth >= 1,
    ensures
        close_scan(s, i, depth, false, false, true) == close_scan(
            s,
            i + recent_entry(r).len(),
            depth,
            false,
            false,
            true,
        ),
        matching_close(s, i + 4, false) == Some(i + recent_entry(r).len() - 1),
{
    lemma_recent_entry_parts(r);
    reveal_strlit("    ");
    let b = recent_body(r);
    lemma_at_concat(s, i, "    "@ + seq!['{'] + b, seq!['}']);
    lemma_at_concat(s, i, "    "@ + seq!['{'], b);
    lemma_at_concat(s, i, "    "@, seq!['{']);
    assert(inert(s, i, i + 4)) by {
        assert forall|m: int| i <= m < i + 4 implies #[trigger] s[m] == ' ' by {
            lemma_at_index(s, i, "    "@, m - i);
        }
    }
    lemma_at_index(s, i + 4, seq!['{'], 0);
    let z = i + 5 + b.len();
    lemma_at_index(s, z, seq!['}'], 0);
    lemma_close_scan_inert(s, i, i + 4, depth, true);
    lemma_close_scan_recent_body(s, i + 5, r, depth + 1, true);
    lemma_close_scan_recent_body(s, i + 5, r, 1, false);
}

/// The scanner steps over all the recent-file lines.
proof fn lemma_close_scan_recent_lines(
    s: Seq<char>,
    i: int,
    f: Seq<(Seq<char>, u64)>,
    depth: int,
)
    requires
        at(s, i, recent_lines(f)),
        depth >= 1,
    ensures
        close_scan(s, i, depth, false, false, true) == close_scan(
            s,
            i + recent_lines(f).len(),
            depth,
            false,
            false,
            true,
        ),
    decreases f.len(),
{
    if f.len() == 1 {
        lemma_close_scan_recent_entry(s, i, f[0], depth);
    } else if f.len() > 1 {
        let fp = f.drop_last();
        let sep = ",\n"@;
        reveal_strlit(",\n");
        assert(recent_lines(f) == recent_lines(fp) + sep + recent_entry(f.last()));
        lemma_at_concat(s, i, recent_lines(fp) + sep, recent_entry(f.last()));
        lemma_at_concat(s, i, recent_lines(fp), sep);
        let j = i + recent_lines(fp).len();
        lemma_close_scan_recent_lines(s, i, fp, depth);
        lemma_at_index(s, j, sep, 0);
        lemma_at_index(s, j, sep, 1);
        lemma_close_scan_inert(s, j, j + 2, depth, true);
        lemma_close_scan_recent_entry(s, j + 2, f.last(), depth);
    }
}

/// The recent-file array written at `i` is closed by its last character.
pub proof fn lemma_recent_close(s: Seq<char>, i: int, f: Seq<(Seq<char>, u64)>)
    requires
        at(s, i, recent_json(f)),
    ensures
        matching_close(s, i, true) == Some(i + recent_json(f).len() - 1),
{
    let rj = recent_json(f);
    if f.len() == 0 {
        reveal_strlit("[]");
        lemma_at_index(s, i, rj, 0);
        lemma_at_index(s, i, rj, 1);
        assert(close_scan(s, i, 0, false, false, true) == close_scan(
            s,
            i + 1,
            1,
            false,
            false,
            true,
        ));
    } else {
        let a = "[\n"@;
        let z = "\n  ]"@;
        reveal_strlit("[\n");
        reveal_strlit("\n  ]");
        assert(rj == a + recent_lines(f) + z);
        lemma_at_concat(s, i, a + recent_lines(f), z);
        lemma_at_concat(s, i, a, recent_lines(f));
        lemma_at_index(s, i, a, 0);
        lemma_at_index(s, i, a, 1);
        let j = i + 2 + recent_lines(f).len();
        assert forall|k: int| 0 <= k < 4 implies #[trigger] s[j + k] == z[k] by {
            lemma_at_index(s, j, z, k);
        }
        assert(close_scan(s, i, 0, false, false, true) == close_scan(
            s,
            i + 1,
            1,
            false,
            false,
            true,
        ));
        lemma_close_scan_inert(s, i + 1, i + 2, 1, true);
        lemma_close_scan_recent_lines(s, i + 2, f, 1);
        assert(inert(s, j, j + 3)) by {
            assert forall|m: int| j <= m < j + 3 implies #[trigger] s[m] == z[m - j] by {
                lemma_at_index(s, j, z, m - j);
            }
        }
        lemma_close_scan_inert(s, j, j + 3, 1, true);
        assert(s[j + 3] == ']');
    }
}

/// The path of one written recent-file object reads back.
proof fn lemma_recent_body_path(r: (Seq<char>, u64))
    ensures
        entry_path(recent_body(r)) == Some(r.0),
{
    let o = recent_body(r);
    assert(at(o, 0, o)) by {
        assert(o.subrange(0, o.len() as int) =~= o);
    }
    lemma_recent_body_layout(o, 0, r);
    let e = escape_json(r.0);
    let c = ": "@;
    reveal_strlit(": ");
    reveal_strlit("path");
    reveal_strlit("\"path\"");
    let p2 = 7int;
    let p3 = 9int;
    lemma_no_match_at(o, quoted("path"@), 0, 0);
    assert(quoted("path"@) =~= "\"path\""@);
    assert(matches_at(o, quoted("path"@), 1));
    lemma_find_from_is(o, quoted("path"@), 0, 1);
    lemma_at_index(o, p2, c, 0);
    lemma_at_index(o, p2, c, 1);
    lemma_at_index(o, p3, quoted(e), 0);
    assert(skip_ws(o, p2) == p2);
    assert(skip_ws(o, p2 + 1) == skip_ws(o, p3));
    assert(skip_ws(o, p3) == p3);
    assert(lookup_field(o, "\"path\""@) == Some(Some(p3)));
    lemma_read_quoted(o, p3, r.0);
}

/// The time of one written recent-file object reads back, unless its path
/// ends with a quote and the name `opened_at`.
#[verifier::spinoff_prover]
#[verifier::rlimit(40)]
proof fn lemma_recent_body_time(r: (Seq<char>, u64))
    requires
        !ends_with(quote() + r.0, quote() + "opened_at"@),
    ensures
        entry_opened_at(recent_body(r)) == Some(r.1),
{
    let o = recent_body(r);
    assert(at(o, 0, o)) by {
        assert(o.subrange(0, o.len() as int) =~= o);
    }
    lemma_recent_body_layout(o, 0, r);
    lemma_recent_entry_parts(r);
    let e = escape_json(r.0);
    let d = decimal(r.1 as nat);
    let c = ": "@;
    let cm = ", "@;
    reveal_strlit(": ");
    reveal_strlit(", ");
    reveal_strlit("path");
    reveal_strlit("opened_at");
    reveal_strlit("\"opened_at\"");
    let p2 = 7int;
    let p3 = 9int;
    let p4 = p3 + e.len() + 2;
    let p5 = p4 + 2;
    let p6 = p5 + 11;
    let p7 = p6 + 2;
    let p8 = p7 + d.len();
    let key = quoted("opened_at"@);
    assert(key =~= "\"opened_at\""@);
    assert(plain_name("opened_at"@));
    lemma_at_index(o, p4, cm, 0);
    lemma_at_index(o, p4, cm, 1);
    assert forall|m: int| 0 <= m < p5 implies !matches_at(o, key, m) by {
        if m == 0 {
            lemma_no_match_at(o, key, m, 0);
        } else if m < p2 {
            lemma_at_index(o, 1, quoted("path"@), m - 1);
            if m == 1 {
                lemma_no_match_at(o, key, m, 1);
            } else if m < 6 {
                lemma_no_match_at(o, key, m, 0);
            } else {
                lemma_at_index(o, p2, c, 0);
                lemma_no_match_at(o, key, m, 1);
            }
        } else if m < p3 {
            lemma_at_index(o, p2, c, m - p2);
            lemma_no_match_at(o, key, m, 0);
        } else if m < p4 {
            lemma_no_name_in_string(o, p3, r.0, "opened_at"@, m);
        } else {
            lemma_no_match_at(o, key, m, 0);
        }
    }
    assert(matches_at(o, key, p5));
    lemma_find_from_is(o, key, 0, p5);
    lemma_at_index(o, p6, c, 0);
    lemma_at_index(o, p6, c, 1);
    lemma_decimal_digits(r.1 as nat);
    lemma_at_index(o, p7, d, 0);
    assert(!is_ws(o[p7]));
    assert(skip_ws(o, p6) == p6);
    assert(skip_ws(o, p6 + 1) == skip_ws(o, p7));
    assert(skip_ws(o, p7) == p7);
    assert(lookup_field(o, "\"opened_at\""@) == Some(Some(p7)));
    lemma_read_decimal(o, p7, r.1 as nat);
}

/// One step of the recent-file reader: a written object is read back and
/// appended.
proof fn lemma_recent_entries_step(
    o: Seq<char>,
    i: int,
    a: int,
    r: (Seq<char>, u64),
    acc: Seq<(Seq<char>, u64)>,
)
    requires
        0 <= i <= a,
        at(o, a, recent_entry(r)),
        forall|m: int| i <= m < a ==> o[m] != '{',
        !ends_with(quote() + r.0, quote() + "opened_at"@),
    ensures
        recent_entries(o, i, acc) == recent_entries(o, a + recent_entry(r).len(), acc.push(r)),
{
    lemma_recent_entry_parts(r);
    reveal_strlit("    ");
    let b = recent_body(r);
    lemma_at_concat(o, a, "    "@ + seq!['{'] + b, seq!['}']);
    lemma_at_concat(o, a, "    "@ + seq!['{'], b);
    lemma_at_concat(o, a, "    "@, seq!['{']);
    assert forall|m: int| a <= m < a + 4 implies #[trigger] o[m] == ' ' by {
        lemma_at_index(o, a, "    "@, m - a);
    }
    lemma_at_index(o, a + 4, seq!['{'], 0);
    lemma_find_char_is(o, '{', i, a + 4);
    lemma_close_scan_recent_entry(o, a, r, 1);
    let e = a + recent_entry(r).len() - 1;
    assert(o.subrange(a + 5, e) == b);
    lemma_recent_body_path(r);
    lemma_recent_body_time(r);
}

/// The recent-file reader appends every written object, in order.
proof fn lemma_recent_entries_lines(
    o: Seq<char>,
    i: int,
    a: int,
    f: Seq<(Seq<char>, u64)>,
    acc: Seq<(Seq<char>, u64)>,
)
    requires
        0 <= i <= a,
        f.len() > 0,
        at(o, a, recent_lines(f)),
        forall|m: int| i <= m < a ==> o[m] != '{',
        forall|k: int|
            0 <= k < f.len() ==> !ends_with(quote() + (#[trigger] f[k]).0, quote() + "opened_at"@),
    ensures
        recent_entries(o, i, acc) == recent_entries(o, a + recent_lines(f).len(), acc + f),
    decreases f.len(),
{
    let x = f.last();
    let fp = f.drop_last();
    assert(x == f[f.len() - 1]);
    if f.len() == 1 {
        assert(recent_lines(f) == recent_entry(f[0]));
        lemma_recent_entries_step(o, i, a, x, acc);
        assert(acc + f =~= acc.push(x));
    } else {
        let sep = ",\n"@;
        reveal_strlit(",\n");
        assert(recent_lines(f) == recent_lines(fp) + sep + recent_entry(x));
        lemma_at_concat(o, a, recent_lines(fp) + sep, recent_entry(x));
        lemma_at_concat(o, a, recent_lines(fp), sep);
        assert forall|k: int| 0 <= k < fp.len() implies !ends_with(
            quote() + (#[trigger] fp[k]).0,
            quote() + "opened_at"@,
        ) by {
            assert(fp[k] == f[k]);
        }
        lemma_recent_entries_lines(o, i, a, fp, acc);
        let j = a + recent_lines(fp).len();
        lemma_at_index(o, j, sep, 0);
        lemma_at_index(o, j, sep, 1);
        lemma_recent_entries_step(o, j, j + 2, x, acc + fp);
        assert(acc + f =~= (acc + fp).push(x));
    }
}

/// The body of a written recent-file array reads back as the list, given
/// that no path ends with a quote and the name `opened_at`.
pub proof fn lemma_recent_read_back(f: Seq<(Seq<char>, u64)>)
    requires
        forall|k: int|
            0 <= k < f.len() ==> !ends_with(quote() + (#[trigger] f[k]).0, quote() + "opened_at"@),
    ensures
        recent_entries(recent_json(f).subrange(1, recent_json(f).len() - 1), 0, Seq::empty())
            == f,
{
    let rj = recent_json(f);
    let o = rj.subrange(1, rj.len() - 1);
    if f.len() == 0 {
        reveal_strlit("[]");
        assert(o.len() == 0);
        assert(f =~= Seq::<(Seq<char>, u64)>::empty());
    } else {
        let a = "[\n"@;
        let z = "\n  ]"@;
        let t = "\n  "@;
        reveal_strlit("[\n");
        reveal_strlit("\n  ]");
        reveal_strlit("\n  ");
        let rl = recent_lines(f);
        assert(rj == a + rl + z);
        assert(o =~= seq!['\n'] + rl + t) by {
            assert forall|k: int| 0 <= k < o.len() implies o[k] == (seq!['\n'] + rl + t)[k] by {
                assert(o[k] == rj[k + 1]);
                if k == 0 {
                } else if k < 1 + rl.len() {
                    assert(rj[k + 1] == rl[k - 1]);
                } else {
                    assert(rj[k + 1] == z[k + 1 - 2 - rl.len()]);
                }
            }
        }
        assert(at(o, 0, seq!['\n'] + rl + t)) by {
            assert(o.subrange(0, o.len() as int) =~= o);
        }
        lemma_at_concat(o, 0, seq!['\n'] + rl, t);
        lemma_at_concat(o, 0, seq!['\n'], rl);
        lemma_at_index(o, 0, seq!['\n'], 0);
        let e: Seq<(Seq<char>, u64)> = Seq::empty();
        assert(e + f =~= f);
        lemma_recent_entries_lines(o, 0, 1, f, e);
        let end = 1 + rl.len() as int;
        assert forall|m: int| end <= m < o.len() implies o[m] != '{' by {
            lemma_at_index(o, end, t, m - end);
        }
        lemma_find_char_none(o, '{', end);
    }
}

// ---------------------------------------------------------------------------
// Names inside the folder table
// ---------------------------------------------------------------------------

/// A project or folder that cannot be taken for the quoted `name`: the text
/// after a quote in it is not `name`.
pub open spec fn hides_name(x: Seq<char>, name: Seq<char>) -> bool {
    !ends_with(quote() + x, quote() + name)
}

proof fn lemma_no_name_in_folder_entry(
    s: Seq<char>,
    i: int,
    e: (Seq<char>, Seq<char>),
    name: Seq<char>,
)
    requires
        at(s, i, folder_entry(e)),
        plain_name(name),
        name[0] != ':',
        i + folder_entry(e).len() < s.len() ==> s[i + folder_entry(e).len()] != name[0],
        hides_name(e.0, name),
        hides_name(e.1, name),
    ensures
        forall|m: int| i <= m < i + folder_entry(e).len() ==> !matches_at(s, quoted(name), m),
{
    let ek = escape_json(e.0);
    let ev = escape_json(e.1);
    let sp = "    "@;
    let b = ": "@;
    reveal_strlit("    \"");
    reveal_strlit("\": \"");
    reveal_strlit("\"");
    reveal_strlit("    ");
    reveal_strlit(": ");
    assert(folder_entry(e) =~= sp + quoted(ek) + b + quoted(ev));
    lemma_at_concat(s, i, sp + quoted(ek) + b, quoted(ev));
    lemma_at_concat(s, i, sp + quoted(ek), b);
    lemma_at_concat(s, i, sp, quoted(ek));
    let p1 = i + 4;
    let p2 = p1 + ek.len() + 2;
    let p3 = p2 + 2;
    let key = quoted(name);
    lemma_at_index(s, p2, b, 0);
    assert forall|m: int| i <= m < i + folder_entry(e).len() implies !matches_at(s, key, m) by {
        if m < p1 {
            lemma_at_index(s, i, sp, m - i);
            lemma_no_match_at(s, key, m, 0);
        } else if m < p2 {
            lemma_no_name_in_string(s, p1, e.0, name, m);
        } else if m < p3 {
            lemma_at_index(s, p2, b, m - p2);
            lemma_no_match_at(s, key, m, 0);
        } else {
            lemma_no_name_in_string(s, p3, e.1, name, m);
        }
    }
}

proof fn lemma_no_name_in_folder_lines(
    s: Seq<char>,
    i: int,
    f: Seq<(Seq<char>, Seq<char>)>,
    name: Seq<char>,
)
    requires
        at(s, i, folder_lines(f)),
        plain_name(name),
        name[0] != ':' && name[0] != ',',
        i + folder_lines(f).len() < s.len() ==> s[i + folder_lines(f).len()] != name[0],
        forall|k: int|
            0 <= k < f.len() ==> hides_name((#[trigger] f[k]).0, name) && hides_name(f[k].1, name),
    ensures
        forall|m: int| i <= m < i + folder_lines(f).len() ==> !matches_at(s, quoted(name), m),
    decreases f.len(),
{
    if f.len() == 1 {
        lemma_no_name_in_folder_entry(s, i, f[0], name);
    } else if f.len() > 1 {
        let fp = f.drop_last();
        let x = f.last();
        assert(x == f[f.len() - 1]);
        let sep = ",\n"@;
        reveal_strlit(",\n");
        assert(folder_lines(f) == folder_lines(fp) + sep + folder_entry(x));
        lemma_at_concat(s, i, folder_lines(fp) + sep, folder_entry(x));
        lemma_at_concat(s, i, folder_lines(fp), sep);
        let j = i + folder_lines(fp).len();
        lemma_at_index(s, j, sep, 0);
        lemma_at_index(s, j, sep, 1);
        assert forall|k: int| 0 <= k < fp.len() implies hides_name((#[trigger] fp[k]).0, name)
            && hides_name(fp[k].1, name) by {
            assert(fp[k] == f[k]);
        }
        lemma_no_name_in_folder_lines(s, i, fp, name);
        lemma_no_name_in_folder_entry(s, j + 2, x, name);
        assert forall|m: int| j <= m < j + 2 implies !matches_at(s, quoted(name), m) by {
            lemma_at_index(s, j, sep, m - j);
            lemma_no_match_at(s, quoted(name), m, 0);
        }
    }
}

/// A quoted name is found nowhere in a written folder table whose projects
/// and folders all hide it.
pub proof fn lemma_no_name_in_folders(
    s: Seq<char>,
    i: int,
    f: Seq<(Seq<char>, Seq<char>)>,
    name: Seq<char>,
)
    requires
        at(s, i, folders_json(f)),
        plain_name(name),
        name[0] != ':' && name[0] != ',' && name[0] != '\n',
        forall|k: int|
            0 <= k < f.len() ==> hides_name((#[trigger] f[k]).0, name) && hides_name(f[k].1, name),
    ensures
        forall|m: int| i <= m < i + folders_json(f).len() ==> !matches_at(s, quoted(name), m),
{
    let fj = folders_json(f);
    let key = quoted(name);
    if f.len() == 0 {
        reveal_strlit("{}");
        assert forall|m: int| i <= m < i + fj.len() implies !matches_at(s, key, m) by {
            lemma_at_index(s, i, fj, m - i);
            lemma_no_match_at(s, key, m, 0);
        }
    } else {
        let a = "{\n"@;
        let z = "\n  }"@;
        reveal_strlit("{\n");
        reveal_strlit("\n  }");
        assert(fj == a + folder_lines(f) + z);
        lemma_at_concat(s, i, a + folder_lines(f), z);
        lemma_at_concat(s, i, a, folder_lines(f));
        let j = i + 2 + folder_lines(f).len();
        lemma_at_index(s, j, z, 0);
        lemma_no_name_in_folder_lines(s, i + 2, f, name);
        assert forall|m: int| i <= m < i + fj.len() implies !matches_at(s, key, m) by {
            if m < i + 2 {
                lemma_at_index(s, i, a, m - i);
                lemma_no_match_at(s, key, m, 0);
            } else if m >= j {
                lemma_at_index(s, j, z, m - j);
                lemma_no_match_at(s, key, m, 0);
            }
        }
    }
}

/// A quoted name found in a line of the folder table ends at a closing
/// quote: after the project, where the colon follows, or at the end of the
/// line.
proof fn lemma_name_match_in_entry(
    s: Seq<char>,
    i: int,
    e: (Seq<char>, Seq<char>),
    name: Seq<char>,
    m: int,
)
    requires
        at(s, i, folder_entry(e)),
        plain_name(name),
        name[0] != ':',
        i + folder_entry(e).len() < s.len() ==> s[i + folder_entry(e).len()] != name[0],
        i <= m < i + folder_entry(e).len(),
        matches_at(s, quoted(name), m),
    ensures
        at(s, m + name.len() + 2, ": \""@) || m + name.len() + 2 == i + folder_entry(e).len(),
{
    let ek = escape_json(e.0);
    let ev = escape_json(e.1);
    let sp = "    "@;
    let b = ": "@;
    reveal_strlit("    \"");
    reveal_strlit("\": \"");
    reveal_strlit("\"");
    reveal_strlit("    ");
    reveal_strlit(": ");
    reveal_strlit(": \"");
    assert(folder_entry(e) =~= sp + quoted(ek) + b + quoted(ev));
    lemma_at_concat(s, i, sp + quoted(ek) + b, quoted(ev));
    lemma_at_concat(s, i, sp + quoted(ek), b);
    lemma_at_concat(s, i, sp, quoted(ek));
    let p1 = i + 4;
    let p2 = p1 + ek.len() + 2;
    let p3 = p2 + 2;
    let key = quoted(name);
    lemma_at_index(s, p2, b, 0);
    if m < p1 {
        lemma_at_index(s, i, sp, m - i);
        lemma_no_match_at(s, key, m, 0);
    } else if m < p2 {
        lemma_name_in_string_closes(s, p1, e.0, name, m);
        lemma_at_index(s, p2, b, 1);
        lemma_at_index(s, p3, quoted(ev), 0);
        assert(s.subrange(p2, p2 + 3) =~= ": \""@);
    } else if m < p3 {
        lemma_at_index(s, p2, b, m - p2);
        lemma_no_match_at(s, key, m, 0);
    } else {
        lemma_name_in_string_closes(s, p3, e.1, name, m);
    }
}

proof fn lemma_name_match_in_lines(
    s: Seq<char>,
    i: int,
    f: Seq<(Seq<char>, Seq<char>)>,
    name: Seq<char>,
    m: int,
)
    requires
        at(s, i, folder_lines(f)),
        plain_name(name),
        name[0] != ':' && name[0] != ',',
        i + folder_lines(f).len() < s.len() ==> s[i + folder_lines(f).len()] != name[0],
        i <= m < i + folder_lines(f).len(),
        matches_at(s, quoted(name), m),
    ensures
        at(s, m + name.len() + 2, ": \""@) || at(s, m + name.len() + 2, ",\n"@) || m + name.len() + 2
            == i + folder_lines(f).len(),
    decreases f.len(),
{
    if f.len() == 1 {
        lemma_name_match_in_entry(s, i, f[0], name, m);
    } else if f.len() > 1 {
        let fp = f.drop_last();
        let x = f.last();
        let sep = ",\n"@;
        reveal_strlit(",\n");
        assert(folder_lines(f) == folder_lines(fp) + sep + folder_entry(x));
        lemma_at_concat(s, i, folder_lines(fp) + sep, folder_entry(x));
        lemma_at_concat(s, i, folder_lines(fp), sep);
        let j = i + folder_lines(fp).len();
        lemma_at_index(s, j, sep, 0);
        lemma_at_index(s, j, sep, 1);
        if m < j {
            lemma_name_match_in_lines(s, i, fp, name, m);
        } else if m < j + 2 {
            lemma_at_index(s, j, sep, m - j);
            lemma_no_match_at(s, quoted(name), m, 0);
        } else {
            lemma_name_match_in_entry(s, j + 2, x, name, m);
        }
    }
}

/// A quoted name found in a written folder table ends at a closing quote
/// that a colon, a comma or the table's last line follows.
pub proof fn lemma_name_match_in_folders(
    s: Seq<char>,
    i: int,
    f: Seq<(Seq<char>, Seq<char>)>,
    name: Seq<char>,
    m: int,
)
    requires
        at(s, i, folders_json(f)),
        plain_name(name),
        name[0] != ':' && name[0] != ',' && name[0] != '\n',
        i <= m < i + folders_json(f).len(),
        matches_at(s, quoted(name), m),
    ensures
        at(s, m + name.len() + 2, ": \""@) || at(s, m + name.len() + 2, ",\n"@) || at(
            s,
            m + name.len() + 2,
            "\n  }"@,
        ),
{
    let fj = folders_json(f);
    let key = quoted(name);
    if f.len() == 0 {
        reveal_strlit("{}");
        lemma_at_index(s, i, fj, m - i);
        lemma_no_match_at(s, key, m, 0);
    } else {
        let a = "{\n"@;
        let z = "\n  }"@;
        reveal_strlit("{\n");
        reveal_strlit("\n  }");
        assert(fj == a + folder_lines(f) + z);
        lemma_at_concat(s, i, a + folder_lines(f), z);
        lemma_at_concat(s, i, a, folder_lines(f));
        let j = i + 2 + folder_lines(f).len();
        lemma_at_index(s, j, z, 0);
        if m < i + 2 {
            lemma_at_index(s, i, a, m - i);
            lemma_no_match_at(s, key, m, 0);
        } else if m >= j {
            lemma_at_index(s, j, z, m - j);
            lemma_no_match_at(s, key, m, 0);
        } else {
            lemma_name_match_in_lines(s, i + 2, f, name, m);
        }
    }
}

} // verus!
