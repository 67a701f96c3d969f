//! What the configuration file keeps: a configuration written by
//! `Config::to_json` reads back as the same configuration.
use vstd::prelude::*;

use crate::config_parse::{
    field_bool, field_project_folders, field_recent_files, field_u8, keep_line,
    line_before_newline, lookup_field, parse_fields, strip_comments, strip_from, ConfigView,
};
use crate::config_write::{bool_text, folders_json, nl, recent_json};
use crate::escaped::{plain_name, quote, quoted};
use crate::folders::keys_unique;
use crate::recent::{lemma_sort_desc_sorted, max_recent, sorted_desc};
use crate::section_laws::{
    at, hides_name, lemma_at_concat, lemma_at_index, lemma_folders_close,
    lemma_folders_read_back, lemma_name_match_in_folders, lemma_no_match_at,
    lemma_no_name_in_folders, lemma_read_decimal, lemma_recent_close, lemma_recent_read_back,
};
use crate::text::{
    decimal, find_char_from, find_from, is_digit, is_ws, lemma_decimal_digits,
    lemma_find_char_from_bounds, lemma_find_from_bounds, lemma_find_from_is, matches_at,
    skip_ws,
};

verus! {

/// A line: no line break in it, and no carriage return at its end.
pub open spec fn plain_line(l: Seq<char>) -> bool {
    &&& forall|i: int| 0 <= i < l.len() ==> l[i] != '\n'
    &&& (l.len() == 0 || l.last() != '\r')
}

proof fn lemma_find_char_shift(p: Seq<char>, r: Seq<char>, c: char, i: int)
    requires
        0 <= i <= r.len(),
    ensures
        find_char_from(p + r, c, p.len() + i) == (match find_char_from(r, c, i) {
            Some(k) => Some(p.len() + k),
            None => None,
        }),
    decreases r.len() - i,
{
    let s = p + r;
    if i < r.len() {
        assert(s[p.len() + i] == r[i]);
        if r[i] != c {
            lemma_find_char_shift(p, r, c, i + 1);
        }
    }
}

proof fn lemma_strip_shift(p: Seq<char>, r: Seq<char>, i: int)
    requires
        0 <= i <= r.len(),
    ensures
        strip_from(p + r, p.len() + i) == strip_from(r, i),
    decreases r.len() - i,
{
    let s = p + r;
    lemma_find_char_shift(p, r, '\n', i);
    lemma_find_char_from_bounds(r, '\n', i);
    match find_char_from(r, '\n', i) {
        None => {
            assert(s.subrange(p.len() + i, s.len() as int) =~= r.subrange(i, r.len() as int));
        },
        Some(k) => {
            assert(line_before_newline(s, p.len() + i, p.len() + k) =~= line_before_newline(
                r,
                i,
                k,
            ));
            if k + 1 < r.len() {
                lemma_strip_shift(p, r, k + 1);
            }
        },
    }
}

/// Splitting after a line break splits the stripped text the same way.
proof fn lemma_strip_concat_from(a: Seq<char>, b: Seq<char>, i: int)
    requires
        a.len() > 0,
        a.last() == '\n',
        b.len() > 0,
        0 <= i < a.len(),
    ensures
        strip_from(a + b, i) == strip_from(a, i) + nl() + strip_from(b, 0),
    decreases a.len() - i,
{
    let s = a + b;
    lemma_find_char_from_bounds(a, '\n', i);
    lemma_find_char_from_bounds(s, '\n', i);
    let k = find_char_from(a, '\n', i)->0;
    assert(find_char_from(a, '\n', i) is Some) by {
        assert(a[a.len() - 1] == '\n');
    }
    assert(find_char_from(s, '\n', i) == Some(k)) by {
        crate::text::lemma_find_char_from_bounds(s, '\n', i);
        let k2 = find_char_from(s, '\n', i)->0;
        assert(s[k] == '\n');
        if k2 < k {
            assert(s[k2] == a[k2]);
        }
    }
    assert(line_before_newline(s, i, k) =~= line_before_newline(a, i, k));
    if k + 1 >= a.len() {
        assert(k + 1 < s.len());
        lemma_strip_shift(a, b, 0);
        assert(strip_from(s, k + 1) == strip_from(b, 0));
    } else {
        lemma_strip_concat_from(a, b, k + 1);
    }
}

pub proof fn lemma_strip_concat(a: Seq<char>, b: Seq<char>)
    requires
        a.len() > 0,
        a.last() == '\n',
        b.len() > 0,
    ensures
        strip_comments(a + b) == strip_comments(a) + nl() + strip_comments(b),
{
    lemma_strip_concat_from(a, b, 0);
}

/// One line and its line break strip to the kept line.
pub proof fn lemma_strip_line(l: Seq<char>)
    requires
        plain_line(l),
    ensures
        strip_comments(l + nl()) == keep_line(l),
{
    let s = l + nl();
    lemma_find_char_from_bounds(s, '\n', 0);
    assert(s[l.len() as int] == '\n');
    let k = find_char_from(s, '\n', 0)->0;
    assert(find_char_from(s, '\n', 0) is Some);
    if k < l.len() {
        assert(s[k] == l[k]);
    }
    assert(k == l.len());
    assert(line_before_newline(s, 0, k) =~= l);
}

// ---------------------------------------------------------------------------
// Finding the fields
// ---------------------------------------------------------------------------

/// What separates two fields once comments are gone: the comma, the line
/// break, the emptied blank and comment lines, and the indentation.
pub open spec fn field_sep() -> Seq<char> {
    ",\n\n\n  "@
}

/// One field as written: its quoted name, a colon, and its value.
pub open spec fn field_text(f: (Seq<char>, Seq<char>)) -> Seq<char> {
    quoted(f.0) + ": "@ + f.1
}

/// Fields, each followed by the separator.
pub open spec fn fields_sep(fs: Seq<(Seq<char>, Seq<char>)>) -> Seq<char>
    decreases fs.len(),
{
    if fs.len() == 0 {
        Seq::empty()
    } else {
        field_text(fs[0]) + field_sep() + fields_sep(fs.drop_first())
    }
}

/// A value with no quote in it.
pub open spec fn quote_free(v: Seq<char>) -> bool {
    forall|i: int| 0 <= i < v.len() ==> v[i] != '"'
}

/// Field names that the reader can tell apart from `name`: plain, starting
/// with a character other than the colon, different from `name`; and
/// values without quotes.
pub open spec fn distinct_fields(fs: Seq<(Seq<char>, Seq<char>)>, name: Seq<char>) -> bool {
    forall|k: int|
        0 <= k < fs.len() ==> plain_name((#[trigger] fs[k]).0) && fs[k].0 != name && quote_free(
            fs[k].1,
        )
}

proof fn lemma_find_from_skip(s: Seq<char>, p: Seq<char>, i: int, j: int)
    requires
        0 <= i <= j,
        forall|m: int| i <= m < j ==> !matches_at(s, p, m),
    ensures
        find_from(s, p, i) == find_from(s, p, j),
    decreases j - i,
{
    if i < j {
        lemma_find_from_skip(s, p, i + 1, j);
    }
}

/// Two different plain names: the quoted one is not found where the other
/// stands.
proof fn lemma_other_name(s: Seq<char>, pos: int, a: Seq<char>, b: Seq<char>)
    requires
        at(s, pos, quoted(a)),
        plain_name(a),
        plain_name(b),
        a != b,
    ensures
        !matches_at(s, quoted(b), pos),
{
    let qa = quoted(a);
    let qb = quoted(b);
    if matches_at(s, qb, pos) {
        if a.len() == b.len() {
            assert forall|k: int| 0 <= k < a.len() implies a[k] == b[k] by {
                lemma_at_index(s, pos, qa, k + 1);
                assert(s[pos + k + 1] == s.subrange(pos, pos + qb.len())[k + 1]);
            }
            assert(a =~= b);
        } else if a.len() < b.len() {
            lemma_at_index(s, pos, qa, a.len() + 1int);
            assert(s[pos + a.len() + 1] == s.subrange(pos, pos + qb.len())[a.len() + 1int]);
            assert(qb[a.len() + 1int] == b[a.len() as int]);
        } else {
            lemma_at_index(s, pos, qa, b.len() + 1int);
            assert(s[pos + b.len() + 1] == s.subrange(pos, pos + qb.len())[b.len() + 1int]);
            assert(qa[b.len() + 1int] == a[b.len() as int]);
        }
    }
}

/// A quoted name is found in no field before it.
pub proof fn lemma_no_name_in_fields(
    s: Seq<char>,
    i: int,
    fs: Seq<(Seq<char>, Seq<char>)>,
    name: Seq<char>,
)
    requires
        at(s, i, fields_sep(fs)),
        plain_name(name),
        name[0] != ':',
        distinct_fields(fs, name),
    ensures
        forall|m: int| i <= m < i + fields_sep(fs).len() ==> !matches_at(s, quoted(name), m),
    decreases fs.len(),
{
    if fs.len() > 0 {
        let f = fs[0];
        let r = fs.drop_first();
        let ft = field_text(f);
        let c = ": "@;
        let sep = field_sep();
        reveal_strlit(": ");
        reveal_strlit(",\n\n\n  ");
        assert(fields_sep(fs) == ft + sep + fields_sep(r));
        lemma_at_concat(s, i, ft + sep, fields_sep(r));
        lemma_at_concat(s, i, ft, sep);
        assert(ft == quoted(f.0) + c + f.1);
        lemma_at_concat(s, i, quoted(f.0) + c, f.1);
        lemma_at_concat(s, i, quoted(f.0), c);
        assert(distinct_fields(r, name)) by {
            assert forall|k: int| 0 <= k < r.len() implies plain_name((#[trigger] r[k]).0) && r[k].0
                != name && quote_free(r[k].1) by {
                assert(r[k] == fs[k + 1]);
            }
        }
        lemma_no_name_in_fields(s, i + ft.len() + sep.len(), r, name);
        let key = quoted(name);
        let cq = i + f.0.len() + 1;
        let vs = cq + 3;
        let se = vs + f.1.len();
        assert(plain_name(f.0) && f.0 != name && quote_free(f.1));
        assert forall|m: int| i <= m < i + ft.len() + sep.len() implies !matches_at(s, key, m) by {
            if m == i {
                lemma_other_name(s, i, f.0, name);
            } else if m < cq {
                lemma_at_index(s, i, quoted(f.0), m - i);
                lemma_no_match_at(s, key, m, 0);
            } else if m == cq {
                lemma_at_index(s, cq + 1, c, 0);
                lemma_no_match_at(s, key, m, 1);
            } else if m < vs {
                lemma_at_index(s, cq + 1, c, m - cq - 1);
                lemma_no_match_at(s, key, m, 0);
            } else if m < se {
                lemma_at_index(s, vs, f.1, m - vs);
                lemma_no_match_at(s, key, m, 0);
            } else {
                lemma_at_index(s, se, sep, m - se);
                lemma_no_match_at(s, key, m, 0);
            }
        }
    }
}

/// Where a field stands after other fields, its quoted name is first found
/// and its value starts after the colon and the space.
pub proof fn lemma_lookup_field_at(s: Seq<char>, i: int, name: Seq<char>, v: Seq<char>)
    requires
        at(s, i, field_text((name, v))),
        v.len() > 0,
        !is_ws(v[0]),
        forall|m: int| 0 <= m < i ==> !matches_at(s, quoted(name), m),
    ensures
        lookup_field(s, quoted(name)) == Some(Some(i + name.len() + 4)),
        at(s, i + name.len() + 4, v),
{
    let c = ": "@;
    reveal_strlit(": ");
    lemma_at_concat(s, i, quoted(name) + c, v);
    lemma_at_concat(s, i, quoted(name), c);
    assert(matches_at(s, quoted(name), i));
    lemma_find_from_is(s, quoted(name), 0, i);
    let r = i + name.len() + 2;
    lemma_at_index(s, r, c, 0);
    lemma_at_index(s, r, c, 1);
    lemma_at_index(s, r + 2, v, 0);
    assert(skip_ws(s, r) == r);
    assert(skip_ws(s, r + 1) == skip_ws(s, r + 2));
    assert(skip_ws(s, r + 2) == r + 2);
}

/// A field among written fields: its value is found where it stands, and
/// the separator follows it.
proof fn lemma_field_in_fields(s: Seq<char>, fs: Seq<(Seq<char>, Seq<char>)>, i: int)
    requires
        at(s, 0, fields_sep(fs)),
        0 <= i < fs.len(),
        plain_name(fs[i].0),
        fs[i].0[0] != ':',
        distinct_fields(fs.take(i), fs[i].0),
        fs[i].1.len() > 0,
        !is_ws(fs[i].1[0]),
    ensures
        lookup_field(s, quoted(fs[i].0)) == Some(
            Some(fields_sep(fs.take(i)).len() + fs[i].0.len() + 4int),
        ),
        at(s, fields_sep(fs.take(i)).len() + fs[i].0.len() + 4int, fs[i].1),
        at(s, fields_sep(fs.take(i)).len() + field_text(fs[i]).len() as int, field_sep()),
{
    lemma_fields_sep_split(fs, i);
    let pre = fields_sep(fs.take(i));
    let ft = field_text(fs[i]);
    lemma_at_concat(s, 0, pre + ft + field_sep(), fields_sep(fs.skip(i + 1)));
    lemma_at_concat(s, 0, pre + ft, field_sep());
    lemma_at_concat(s, 0, pre, ft);
    lemma_no_name_in_fields(s, 0, fs.take(i), fs[i].0);
    lemma_lookup_field_at(s, pre.len() as int, fs[i].0, fs[i].1);
}

proof fn lemma_fields_sep_split(fs: Seq<(Seq<char>, Seq<char>)>, i: int)
    requires
        0 <= i < fs.len(),
    ensures
        fields_sep(fs) == fields_sep(fs.take(i)) + field_text(fs[i]) + field_sep() + fields_sep(
            fs.skip(i + 1),
        ),
    decreases i,
{
    let r = fs.drop_first();
    if i == 0 {
        assert(fs.take(0) =~= Seq::<(Seq<char>, Seq<char>)>::empty());
        assert(fs.skip(1) =~= r);
        assert(fields_sep(fs.take(0)) =~= Seq::<char>::empty());
        assert(fields_sep(fs) =~= fields_sep(fs.take(i)) + field_text(fs[i]) + field_sep()
            + fields_sep(fs.skip(i + 1)));
    } else {
        lemma_fields_sep_split(r, i - 1);
        assert(fs.take(i).drop_first() =~= r.take(i - 1));
        assert(r.skip(i) =~= fs.skip(i + 1));
        assert(r[i - 1] == fs[i]);
        assert(fs.take(i)[0] == fs[0]);
        assert(fields_sep(fs.take(i)) == field_text(fs[0]) + field_sep() + fields_sep(
            r.take(i - 1),
        ));
        assert(fields_sep(fs) =~= fields_sep(fs.take(i)) + field_text(fs[i]) + field_sep()
            + fields_sep(fs.skip(i + 1)));
    }
}

/// A boolean field reads back.
proof fn lemma_field_bool_reads(s: Seq<char>, name: Seq<char>, v: int, b: bool, dflt: bool)
    requires
        lookup_field(s, quoted(name)) == Some(Some(v)),
        at(s, v, bool_text(b)),
    ensures
        field_bool(s, quoted(name), dflt) == Some(b),
{
    reveal_strlit("true");
    reveal_strlit("false");
    if b {
        assert(bool_text(b) =~= seq!['t', 'r', 'u', 'e']);
    } else {
        assert(bool_text(b) =~= seq!['f', 'a', 'l', 's', 'e']);
        lemma_at_index(s, v, bool_text(b), 0);
        lemma_no_match_at(s, seq!['t', 'r', 'u', 'e'], v, 0);
    }
}

/// A small number field reads back when it lies in the accepted range.
proof fn lemma_field_u8_reads(
    s: Seq<char>,
    name: Seq<char>,
    v: int,
    n: u8,
    dflt: u8,
    min: u8,
    max: u8,
)
    requires
        lookup_field(s, quoted(name)) == Some(Some(v)),
        at(s, v, decimal(n as nat)),
        v + decimal(n as nat).len() < s.len(),
        s[v + decimal(n as nat).len()] == ',',
        min <= n <= max,
    ensures
        field_u8(s, quoted(name), dflt, min, max) == Some(n),
{
    lemma_decimal_digits(n as nat);
    lemma_read_decimal(s, v, n as nat);
}

/// The first eight fields of the file, in the order they are written.
pub open spec fn simple_fields(c: ConfigView) -> Seq<(Seq<char>, Seq<char>)> {
    seq![
        ("word_wrap"@, bool_text(c.word_wrap)),
        ("indent_with_tabs"@, bool_text(c.indent_with_tabs)),
        ("tab_size"@, decimal(c.tab_size as nat)),
        ("newline_crlf"@, bool_text(c.newline_crlf)),
        ("line_numbers"@, bool_text(c.line_numbers)),
        ("line_highlight"@, bool_text(c.line_highlight)),
        ("insert_final_newline"@, bool_text(c.insert_final_newline)),
        ("ruler_column"@, decimal(c.ruler_column as nat)),
    ]
}

/// The fields of the file between its braces, once comments are gone and
/// the blanks at both ends are trimmed.
pub open spec fn config_body(c: ConfigView) -> Seq<char> {
    fields_sep(simple_fields(c)) + field_text(("project_folders"@, folders_json(c.project_folders)))
        + field_sep() + field_text(("recent_files"@, recent_json(c.recent_files)))
}

/// A configuration the file keeps: a tab size the reader accepts; distinct
/// projects; at most a hundred recent files, newest first; no recent-file
/// path that ends with a quote and the name `opened_at`; and, when there
/// are recent files, no project or folder that ends with a quote and the
/// name `recent_files`.
pub open spec fn keepable(c: ConfigView) -> bool {
    &&& 1 <= c.tab_size <= 8
    &&& keys_unique(c.project_folders)
    &&& forall|k: int|
        0 <= k < c.recent_files.len() ==> hides_name(
            (#[trigger] c.recent_files[k]).0,
            "opened_at"@,
        )
    &&& c.recent_files.len() > 0 ==> forall|k: int|
        0 <= k < c.project_folders.len() ==> hides_name(
            (#[trigger] c.project_folders[k]).0,
            "recent_files"@,
        ) && hides_name(c.project_folders[k].1, "recent_files"@)
    &&& sorted_desc(c.recent_files)
    &&& c.recent_files.len() <= max_recent()
}

proof fn lemma_field_names()
    ensures
        plain_name("word_wrap"@),
        plain_name("indent_with_tabs"@),
        plain_name("tab_size"@),
        plain_name("newline_crlf"@),
        plain_name("line_numbers"@),
        plain_name("line_highlight"@),
        plain_name("insert_final_newline"@),
        plain_name("ruler_column"@),
        plain_name("project_folders"@),
        plain_name("recent_files"@),
        "word_wrap"@[0] == 'w',
        "indent_with_tabs"@[0] == 'i',
        "tab_size"@[0] == 't',
        "newline_crlf"@[0] == 'n',
        "line_numbers"@[0] == 'l',
        "line_highlight"@[0] == 'l',
        "insert_final_newline"@[0] == 'i',
        "ruler_column"@[0] == 'r',
        "project_folders"@[0] == 'p',
        "recent_files"@[0] == 'r',
        "line_numbers"@ != "line_highlight"@,
        "indent_with_tabs"@ != "insert_final_newline"@,
        "ruler_column"@ != "recent_files"@,
        quoted("word_wrap"@) == "\"word_wrap\""@,
        quoted("indent_with_tabs"@) == "\"indent_with_tabs\""@,
        quoted("tab_size"@) == "\"tab_size\""@,
        quoted("newline_crlf"@) == "\"newline_crlf\""@,
        quoted("line_numbers"@) == "\"line_numbers\""@,
        quoted("line_highlight"@) == "\"line_highlight\""@,
        quoted("insert_final_newline"@) == "\"insert_final_newline\""@,
        quoted("ruler_column"@) == "\"ruler_column\""@,
        quoted("project_folders"@) == "\"project_folders\""@,
        quoted("recent_files"@) == "\"recent_files\""@,
{
    reveal_strlit("word_wrap");
    reveal_strlit("indent_with_tabs");
    reveal_strlit("tab_size");
    reveal_strlit("newline_crlf");
    reveal_strlit("line_numbers");
    reveal_strlit("line_highlight");
    reveal_strlit("insert_final_newline");
    reveal_strlit("ruler_column");
    reveal_strlit("project_folders");
    reveal_strlit("recent_files");
    reveal_strlit("\"word_wrap\"");
    reveal_strlit("\"indent_with_tabs\"");
    reveal_strlit("\"tab_size\"");
    reveal_strlit("\"newline_crlf\"");
    reveal_strlit("\"line_numbers\"");
    reveal_strlit("\"line_highlight\"");
    reveal_strlit("\"insert_final_newline\"");
    reveal_strlit("\"ruler_column\"");
    reveal_strlit("\"project_folders\"");
    reveal_strlit("\"recent_files\"");
    assert("line_numbers"@[5] != "line_highlight"@[5]);
    assert("indent_with_tabs"@[2] != "insert_final_newline"@[2]);
    assert("ruler_column"@[1] != "recent_files"@[1]);
    assert(quoted("word_wrap"@) =~= "\"word_wrap\""@);
    assert(quoted("indent_with_tabs"@) =~= "\"indent_with_tabs\""@);
    assert(quoted("tab_size"@) =~= "\"tab_size\""@);
    assert(quoted("newline_crlf"@) =~= "\"newline_crlf\""@);
    assert(quoted("line_numbers"@) =~= "\"line_numbers\""@);
    assert(quoted("line_highlight"@) =~= "\"line_highlight\""@);
    assert(quoted("insert_final_newline"@) =~= "\"insert_final_newline\""@);
    assert(quoted("ruler_column"@) =~= "\"ruler_column\""@);
    assert(quoted("project_folders"@) =~= "\"project_folders\""@);
    assert(quoted("recent_files"@) =~= "\"recent_files\""@);
}

/// What the first eight fields have that the reader relies on.
proof fn lemma_simple_fields_facts(c: ConfigView)
    ensures
        forall|k: int|
            0 <= k < 8 ==> plain_name((#[trigger] simple_fields(c)[k]).0) && simple_fields(c)[k].0[0]
                != ':' && quote_free(simple_fields(c)[k].1) && simple_fields(c)[k].1.len() > 0
                && !is_ws(simple_fields(c)[k].1[0]),
        forall|j: int, k: int|
            0 <= j < k < 8 ==> (#[trigger] simple_fields(c)[j]).0 != (
            #[trigger] simple_fields(c)[k]).0,
        simple_fields(c).len() == 8,
{
    lemma_field_names();
    reveal_strlit("word_wrap");
    reveal_strlit("indent_with_tabs");
    reveal_strlit("tab_size");
    reveal_strlit("newline_crlf");
    reveal_strlit("line_numbers");
    reveal_strlit("line_highlight");
    reveal_strlit("insert_final_newline");
    reveal_strlit("ruler_column");
    reveal_strlit("true");
    reveal_strlit("false");
    lemma_value_facts(c);
}

proof fn lemma_value_facts(c: ConfigView)
    ensures
        forall|k: int|
            0 <= k < 8 ==> quote_free((#[trigger] simple_fields(c)[k]).1) && simple_fields(c)[k].1.len()
                > 0 && !is_ws(simple_fields(c)[k].1[0]),
{
    reveal_strlit("true");
    reveal_strlit("false");
    assert forall|b: bool| quote_free(#[trigger] bool_text(b)) && bool_text(b).len() > 0 && !is_ws(
        bool_text(b)[0],
    ) by {}
    assert forall|n: nat| quote_free(#[trigger] decimal(n)) && decimal(n).len() > 0 && !is_ws(
        decimal(n)[0],
    ) by {
        lemma_decimal_digits(n);
        assert forall|i: int| 0 <= i < decimal(n).len() implies decimal(n)[i] != '"' by {
            assert(is_digit(decimal(n)[i]));
        }
        assert(is_digit(decimal(n)[0]));
    }
}

/// The list field names differ from the first eight.
proof fn lemma_list_names_distinct(c: ConfigView)
    ensures
        distinct_fields(simple_fields(c), "project_folders"@),
        distinct_fields(simple_fields(c), "recent_files"@),
{
    lemma_field_names();
    lemma_value_facts(c);
    reveal_strlit("word_wrap");
    reveal_strlit("indent_with_tabs");
    reveal_strlit("tab_size");
    reveal_strlit("newline_crlf");
    reveal_strlit("line_numbers");
    reveal_strlit("line_highlight");
    reveal_strlit("insert_final_newline");
    reveal_strlit("ruler_column");
    reveal_strlit("project_folders");
    reveal_strlit("recent_files");
    assert("ruler_column"@[1] != "recent_files"@[1]);
    assert("newline_crlf"@[0] != "recent_files"@[0]);
    assert("line_numbers"@[0] != "recent_files"@[0]);
}

/// Where the parts of the body stand.
proof fn lemma_body_layout(c: ConfigView)
    ensures
        at(config_body(c), 0, fields_sep(simple_fields(c))),
        at(
            config_body(c),
            fields_sep(simple_fields(c)).len() as int,
            field_text(("project_folders"@, folders_json(c.project_folders))),
        ),
        at(
            config_body(c),
            (fields_sep(simple_fields(c)).len() + field_text(
                ("project_folders"@, folders_json(c.project_folders)),
            ).len()) as int,
            field_sep(),
        ),
        at(
            config_body(c),
            (fields_sep(simple_fields(c)).len() + field_text(
                ("project_folders"@, folders_json(c.project_folders)),
            ).len() + field_sep().len()) as int,
            field_text(("recent_files"@, recent_json(c.recent_files))),
        ),
{
    let s = config_body(c);
    let p = fields_sep(simple_fields(c));
    let f9 = field_text(("project_folders"@, folders_json(c.project_folders)));
    let f10 = field_text(("recent_files"@, recent_json(c.recent_files)));
    assert(at(s, 0, s)) by {
        assert(s.subrange(0, s.len() as int) =~= s);
    }
    lemma_at_concat(s, 0, p + f9 + field_sep(), f10);
    lemma_at_concat(s, 0, p + f9, field_sep());
    lemma_at_concat(s, 0, p, f9);
}

/// The folder field reads back.
proof fn lemma_folders_field_read(c: ConfigView)
    requires
        keys_unique(c.project_folders),
    ensures
        field_project_folders(config_body(c)) == c.project_folders,
{
    lemma_field_names();
    lemma_list_names_distinct(c);
    lemma_body_layout(c);
    reveal_strlit("project_folders");
    reveal_strlit("{}");
    reveal_strlit("{\n");
    let s = config_body(c);
    let fs = simple_fields(c);
    let pf = "project_folders"@;
    let fj = folders_json(c.project_folders);
    let p = fields_sep(fs);
    lemma_no_name_in_fields(s, 0, fs, pf);
    assert(fj[0] == '{');
    lemma_lookup_field_at(s, p.len() as int, pf, fj);
    let v = p.len() + 19int;
    lemma_at_index(s, v, fj, 0);
    lemma_folders_close(s, v, c.project_folders);
    assert(s.subrange(v + 1, v + fj.len() - 1) =~= fj.subrange(1, fj.len() - 1)) by {
        assert forall|k: int| 0 <= k < fj.len() - 2 implies #[trigger] s.subrange(
            v + 1,
            v + fj.len() - 1,
        )[k] == fj.subrange(1, fj.len() - 1)[k] by {
            lemma_at_index(s, v, fj, k + 1);
        }
    }
    lemma_folders_read_back(c.project_folders);
}

/// No quoted `recent_files` stands before its field, when the folder table
/// hides that name.
proof fn lemma_recent_name_first(c: ConfigView)
    requires
        forall|k: int|
            0 <= k < c.project_folders.len() ==> hides_name(
                (#[trigger] c.project_folders[k]).0,
                "recent_files"@,
            ) && hides_name(c.project_folders[k].1, "recent_files"@),
    ensures
        forall|m: int|
            0 <= m < fields_sep(simple_fields(c)).len() + field_text(
                ("project_folders"@, folders_json(c.project_folders)),
            ).len() + field_sep().len() ==> !matches_at(config_body(c), quoted("recent_files"@), m),
{
    lemma_field_names();
    lemma_list_names_distinct(c);
    lemma_body_layout(c);
    reveal_strlit("project_folders");
    reveal_strlit("recent_files");
    reveal_strlit(": ");
    reveal_strlit(",\n\n\n  ");
    let s = config_body(c);
    let fs = simple_fields(c);
    let pf = "project_folders"@;
    let rf = "recent_files"@;
    let fj = folders_json(c.project_folders);
    let p = fields_sep(fs);
    let f9 = field_text((pf, fj));
    let key = quoted(rf);
    lemma_no_name_in_fields(s, 0, fs, rf);
    let v = p.len() + 19int;
    lemma_at_concat(s, p.len() as int, quoted(pf) + ": "@, fj);
    lemma_at_concat(s, p.len() as int, quoted(pf), ": "@);
    lemma_no_name_in_folders(s, v, c.project_folders, rf);
    let w = v + fj.len() as int;
    let w2 = w + 6int;
    assert forall|m: int| 0 <= m < w2 implies !matches_at(s, key, m) by {
        if m < p.len() {
        } else if m == p.len() {
            lemma_other_name(s, m, pf, rf);
        } else if m < v {
            if m < p.len() + 16 {
                lemma_at_index(s, p.len() as int, quoted(pf), m - p.len());
                lemma_no_match_at(s, key, m, 0);
            } else if m == p.len() + 16 {
                lemma_at_index(s, p.len() + 17int, ": "@, 0);
                lemma_no_match_at(s, key, m, 1);
            } else {
                lemma_at_index(s, p.len() + 17int, ": "@, m - p.len() - 17);
                lemma_no_match_at(s, key, m, 0);
            }
        } else if m < w {
        } else {
            lemma_at_index(s, w, field_sep(), m - w);
            assert(field_sep()[m - w] != '"');
            lemma_no_match_at(s, key, m, 0);
        }
    }
}

/// The recent-file field reads back, when the folder table hides its name.
proof fn lemma_recent_field_read(c: ConfigView)
    requires
        forall|k: int|
            0 <= k < c.recent_files.len() ==> hides_name(
                (#[trigger] c.recent_files[k]).0,
                "opened_at"@,
            ),
        forall|k: int|
            0 <= k < c.project_folders.len() ==> hides_name(
                (#[trigger] c.project_folders[k]).0,
                "recent_files"@,
            ) && hides_name(c.project_folders[k].1, "recent_files"@),
    ensures
        field_recent_files(config_body(c)) == c.recent_files,
{
    lemma_field_names();
    lemma_body_layout(c);
    lemma_recent_name_first(c);
    reveal_strlit("recent_files");
    reveal_strlit("[]");
    reveal_strlit("[\n");
    let s = config_body(c);
    let rf = "recent_files"@;
    let rj = recent_json(c.recent_files);
    let w2 = (fields_sep(simple_fields(c)).len() + field_text(
        ("project_folders"@, folders_json(c.project_folders)),
    ).len() + field_sep().len()) as int;
    assert(rj[0] == '[');
    lemma_lookup_field_at(s, w2, rf, rj);
    let v2 = w2 + 16int;
    lemma_at_index(s, v2, rj, 0);
    lemma_recent_close(s, v2, c.recent_files);
    assert(s.subrange(v2 + 1, v2 + rj.len() - 1) =~= rj.subrange(1, rj.len() - 1)) by {
        assert forall|k: int| 0 <= k < rj.len() - 2 implies #[trigger] s.subrange(
            v2 + 1,
            v2 + rj.len() - 1,
        )[k] == rj.subrange(1, rj.len() - 1)[k] by {
            lemma_at_index(s, v2, rj, k + 1);
        }
    }
    lemma_recent_read_back(c.recent_files);
}

/// Each of the first eight fields is found where it is written, with the
/// separator after its value.
proof fn lemma_simple_field(c: ConfigView, i: int)
    requires
        0 <= i < 8,
    ensures
        ({
            let fs = simple_fields(c);
            let v = fields_sep(fs.take(i)).len() + fs[i].0.len() + 4int;
            &&& lookup_field(config_body(c), quoted(fs[i].0)) == Some(Some(v))
            &&& at(config_body(c), v, fs[i].1)
            &&& at(config_body(c), v + fs[i].1.len() as int, field_sep())
        }),
{
    let fs = simple_fields(c);
    lemma_simple_fields_facts(c);
    lemma_body_layout(c);
    assert(distinct_fields(fs.take(i), fs[i].0)) by {
        assert forall|k: int| 0 <= k < fs.take(i).len() implies plain_name(
            (#[trigger] fs.take(i)[k]).0,
        ) && fs.take(i)[k].0 != fs[i].0 && quote_free(fs.take(i)[k].1) by {
            assert(fs.take(i)[k] == fs[k]);
            assert(fs[k].0 != fs[i].0);
        }
    }
    assert(plain_name(fs[i].0));
    lemma_field_in_fields(config_body(c), fs, i);
    reveal_strlit(": ");
    assert(field_text(fs[i]).len() == fs[i].0.len() + 4 + fs[i].1.len());
}

/// With no recent files, the recent-file field reads back empty whatever
/// the folder table holds.
#[verifier::spinoff_prover]
#[verifier::rlimit(40)]
proof fn lemma_recent_field_empty(c: ConfigView)
    requires
        c.recent_files.len() == 0,
    ensures
        field_recent_files(config_body(c)) == c.recent_files,
{
    lemma_field_names();
    lemma_list_names_distinct(c);
    lemma_body_layout(c);
    reveal_strlit("project_folders");
    reveal_strlit("recent_files");
    reveal_strlit(": ");
    reveal_strlit(",\n\n\n  ");
    reveal_strlit("[]");
    reveal_strlit(": \"");
    reveal_strlit(",\n");
    reveal_strlit("\n  }");
    let s = config_body(c);
    let fs = simple_fields(c);
    let pf = "project_folders"@;
    let rf = "recent_files"@;
    let fj = folders_json(c.project_folders);
    let rj = recent_json(c.recent_files);
    let p = fields_sep(fs);
    let key = quoted(rf);
    lemma_no_name_in_fields(s, 0, fs, rf);
    let v = p.len() + 19int;
    lemma_at_concat(s, p.len() as int, quoted(pf) + ": "@, fj);
    lemma_at_concat(s, p.len() as int, quoted(pf), ": "@);
    let w = v + fj.len() as int;
    let w2 = w + 6int;
    assert forall|m: int| 0 <= m < w2 && !(v <= m < w) implies !matches_at(s, key, m) by {
        if m < p.len() {
        } else if m == p.len() {
            lemma_other_name(s, m, pf, rf);
        } else if m < v {
            if m < p.len() + 16 {
                lemma_at_index(s, p.len() as int, quoted(pf), m - p.len());
                lemma_no_match_at(s, key, m, 0);
            } else if m == p.len() + 16 {
                lemma_at_index(s, p.len() + 17int, ": "@, 0);
                lemma_no_match_at(s, key, m, 1);
            } else {
                lemma_at_index(s, p.len() + 17int, ": "@, m - p.len() - 17);
                lemma_no_match_at(s, key, m, 0);
            }
        } else {
            lemma_at_index(s, w, field_sep(), m - w);
            lemma_no_match_at(s, key, m, 0);
        }
    }
    let f10 = field_text((rf, rj));
    lemma_at_concat(s, w2, quoted(rf) + ": "@, rj);
    lemma_at_concat(s, w2, quoted(rf), ": "@);
    assert(matches_at(s, key, w2));
    lemma_find_from_bounds(s, key, 0);
    let m = find_from(s, key, 0)->0;
    assert(find_from(s, key, 0) is Some);
    assert(m <= w2);
    let e = m + 14;
    if m == w2 {
        assert(rj[0] == '[');
        lemma_lookup_field_at(s, w2, rf, rj);
        let v2 = w2 + 16int;
        lemma_at_index(s, v2, rj, 0);
        lemma_recent_close(s, v2, c.recent_files);
        assert(s.subrange(v2 + 1, v2 + rj.len() - 1) =~= rj.subrange(1, rj.len() - 1)) by {
            assert forall|k: int| 0 <= k < rj.len() - 2 implies #[trigger] s.subrange(
                v2 + 1,
                v2 + rj.len() - 1,
            )[k] == rj.subrange(1, rj.len() - 1)[k] by {
                lemma_at_index(s, v2, rj, k + 1);
            }
        }
        lemma_recent_read_back(c.recent_files);
    } else {
        assert(v <= m < w);
        lemma_name_match_in_folders(s, v, c.project_folders, rf, m);
        assert(key.len() == 14);
        if at(s, e, ": \""@) {
            lemma_at_index(s, e, ": \""@, 0);
            lemma_at_index(s, e, ": \""@, 1);
            lemma_at_index(s, e, ": \""@, 2);
            assert(skip_ws(s, e) == e);
            assert(skip_ws(s, e + 1) == skip_ws(s, e + 2));
            assert(skip_ws(s, e + 2) == e + 2);
            assert(lookup_field(s, key) == Some(Some(e + 2)));
        } else if at(s, e, ",\n"@) {
            lemma_at_index(s, e, ",\n"@, 0);
            assert(skip_ws(s, e) == e);
            assert(lookup_field(s, key) == Some(None::<int>));
        } else {
            lemma_at_index(s, e, "\n  }"@, 0);
            lemma_at_index(s, e, "\n  }"@, 1);
            lemma_at_index(s, e, "\n  }"@, 2);
            lemma_at_index(s, e, "\n  }"@, 3);
            assert(skip_ws(s, e + 3) == e + 3);
            assert(skip_ws(s, e + 2) == e + 3);
            assert(skip_ws(s, e + 1) == e + 3);
            assert(skip_ws(s, e) == e + 3);
            assert(lookup_field(s, key) == Some(None::<int>));
        }
        assert(c.recent_files =~= Seq::<(Seq<char>, u64)>::empty());
    }
}

proof fn lemma_simple_bool_reads(c: ConfigView, i: int, b: bool, dflt: bool)
    requires
        0 <= i < 8,
        simple_fields(c)[i].1 == bool_text(b),
    ensures
        field_bool(config_body(c), quoted(simple_fields(c)[i].0), dflt) == Some(b),
{
    let fs = simple_fields(c);
    lemma_simple_field(c, i);
    let v = fields_sep(fs.take(i)).len() + fs[i].0.len() + 4int;
    lemma_field_bool_reads(config_body(c), fs[i].0, v, b, dflt);
}

proof fn lemma_simple_u8_reads(c: ConfigView, i: int, n: u8, dflt: u8, min: u8, max: u8)
    requires
        0 <= i < 8,
        simple_fields(c)[i].1 == decimal(n as nat),
        min <= n <= max,
    ensures
        field_u8(config_body(c), quoted(simple_fields(c)[i].0), dflt, min, max) == Some(n),
{
    let fs = simple_fields(c);
    let s = config_body(c);
    lemma_simple_field(c, i);
    let v = fields_sep(fs.take(i)).len() + fs[i].0.len() + 4int;
    reveal_strlit(",\n\n\n  ");
    lemma_at_index(s, v + fs[i].1.len() as int, field_sep(), 0);
    lemma_field_u8_reads(s, fs[i].0, v, n, dflt, min, max);
}

/// The body between the braces of a written file reads back as the
/// configuration it was written for.
#[verifier::spinoff_prover]
#[verifier::rlimit(50)]
pub proof fn lemma_body_reads(c: ConfigView, d: ConfigView)
    requires
        1 <= c.tab_size <= 8,
        keys_unique(c.project_folders),
        forall|k: int|
            0 <= k < c.recent_files.len() ==> hides_name(
                (#[trigger] c.recent_files[k]).0,
                "opened_at"@,
            ),
        c.recent_files.len() > 0 ==> forall|k: int|
            0 <= k < c.project_folders.len() ==> hides_name(
                (#[trigger] c.project_folders[k]).0,
                "recent_files"@,
            ) && hides_name(c.project_folders[k].1, "recent_files"@),
        sorted_desc(c.recent_files),
        c.recent_files.len() <= max_recent(),
    ensures
        parse_fields(config_body(c), d) == Some(c),
{
    lemma_sort_desc_sorted(c.recent_files);
    let fs = simple_fields(c);
    lemma_field_names();
    lemma_simple_bool_reads(c, 0, c.word_wrap, d.word_wrap);
    lemma_simple_bool_reads(c, 1, c.indent_with_tabs, d.indent_with_tabs);
    lemma_simple_u8_reads(c, 2, c.tab_size, d.tab_size, 1, 8);
    lemma_simple_bool_reads(c, 3, c.newline_crlf, d.newline_crlf);
    lemma_simple_bool_reads(c, 4, c.line_numbers, d.line_numbers);
    lemma_simple_bool_reads(c, 5, c.line_highlight, d.line_highlight);
    lemma_simple_bool_reads(c, 6, c.insert_final_newline, d.insert_final_newline);
    lemma_simple_u8_reads(c, 7, c.ruler_column, d.ruler_column, 0, 255);
    lemma_folders_field_read(c);
    if c.recent_files.len() > 0 {
        lemma_recent_field_read(c);
    } else {
        lemma_recent_field_empty(c);
    }
}

} // verus!
