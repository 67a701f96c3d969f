//! Facts about text written by `escape_json`: what characters it can hold,
//! how the bracket scanner steps over a quoted string, and where a quoted
//! field name can and cannot be found in it.
use vstd::prelude::*;

use crate::config_parse::{close_scan};
use crate::json_string::{escape_char, escape_json, lemma_escape_json_concat};
use crate::text::matches_at;

verus! {

/// `t` is a suffix of `s`.
pub open spec fn ends_with(s: Seq<char>, t: Seq<char>) -> bool {
    t.len() <= s.len() && s.subrange(s.len() - t.len(), s.len() as int) == t
}

/// The quote character as a one-element sequence.
pub open spec fn quote() -> Seq<char> {
    seq!['"']
}

/// `"name"`: a field name in quotes.
pub open spec fn quoted(name: Seq<char>) -> Seq<char> {
    quote() + name + quote()
}

/// A field name as the configuration file uses them: not empty, with no
/// quote and no backslash in it.
pub open spec fn plain_name(name: Seq<char>) -> bool {
    &&& name.len() > 0
    &&& forall|i: int| 0 <= i < name.len() ==> name[i] != '"' && name[i] != '\\'
}

pub proof fn lemma_escape_json_last(x: Seq<char>)
    requires
        x.len() > 0,
    ensures
        escape_json(x) == escape_json(x.drop_last()) + escape_char(x.last()),
{
    let c = x.last();
    lemma_escape_json_concat(x.drop_last(), seq![c]);
    assert(x.drop_last() + seq![c] =~= x);
    assert(seq![c].drop_first() =~= Seq::<char>::empty());
    assert(escape_json(seq![c]) == escape_char(c) + escape_json(seq![c].drop_first()));
    assert(escape_char(c) + Seq::<char>::empty() =~= escape_char(c));
}

/// Escaped text holds no line break and no carriage return, and each quote
/// in it follows a backslash.
pub proof fn lemma_escape_json_chars(x: Seq<char>)
    ensures
        forall|i: int|
            0 <= i < escape_json(x).len() ==> #[trigger] escape_json(x)[i] != '\n'
                && escape_json(x)[i] != '\r',
        forall|i: int|
            0 <= i < escape_json(x).len() && #[trigger] escape_json(x)[i] == '"' ==> i >= 1
                && escape_json(x)[i - 1] == '\\',
    decreases x.len(),
{
    if x.len() > 0 {
        let r = x.drop_first();
        lemma_escape_json_chars(r);
        let e = escape_json(x);
        let h = escape_char(x[0]);
        assert(e == h + escape_json(r));
        assert forall|i: int| 0 <= i < e.len() implies #[trigger] e[i] != '\n' && e[i] != '\r' by {
            if i >= h.len() {
                assert(e[i] == escape_json(r)[i - h.len()]);
            }
        }
        assert forall|i: int| 0 <= i < e.len() && #[trigger] e[i] == '"' implies i >= 1 && e[i
            - 1] == '\\' by {
            if i >= h.len() {
                assert(e[i] == escape_json(r)[i - h.len()]);
                assert(escape_json(r)[i - h.len()] == '"');
                if i - h.len() >= 1 {
                    assert(e[i - 1] == escape_json(r)[i - h.len() - 1]);
                }
            }
        }
    }
}

/// Escaping is empty exactly for the empty text.
pub proof fn lemma_escape_json_empty(x: Seq<char>)
    ensures
        (escape_json(x).len() == 0) == (x.len() == 0),
{
    if x.len() > 0 {
        assert(escape_json(x) == escape_char(x[0]) + escape_json(x.drop_first()));
    }
}

/// If the escaped text, after a quote, ends with a quote and a name, then
/// so does the text itself.
pub proof fn lemma_escaped_suffix(x: Seq<char>, t: Seq<char>)
    requires
        forall|i: int| 0 <= i < t.len() ==> t[i] != '\\',
        ends_with(quote() + escape_json(x), quote() + t),
    ensures
        ends_with(quote() + x, quote() + t),
    decreases x.len(),
{
    let qe = quote() + escape_json(x);
    let qt = quote() + t;
    if x.len() == 0 {
        assert(escape_json(x).len() == 0);
        assert(qe =~= quote());
        assert(t.len() == 0);
        assert(quote() + x =~= quote());
        assert(qt =~= quote());
    } else {
        let c = x.last();
        let xp = x.drop_last();
        lemma_escape_json_last(x);
        let h = escape_char(c);
        assert(qe =~= (quote() + escape_json(xp)) + h);
        let n = qe.len();
        assert(qe[n - 1] == qt[qt.len() - 1]);
        if t.len() == 0 {
            assert(qt =~= quote());
            assert(h[h.len() - 1] == '"');
            assert(c == '"');
            assert((quote() + x)[(quote() + x).len() - 1] == x[x.len() - 1]);
            assert((quote() + x).subrange(x.len() as int, x.len() + 1int) =~= quote());
        } else {
            if h.len() == 2 {
                assert(qe[n - 2] == '\\');
                assert(qe[n - 2] == qt[qt.len() - 2]);
                if t.len() >= 2 {
                    assert(qt[qt.len() - 2] == t[t.len() - 2]);
                } else {
                    assert(qt[qt.len() - 2] == '"');
                }
                assert(false);
            }
            assert(h =~= seq![c]);
            assert(c == t.last());
            let tp = t.drop_last();
            assert(ends_with(quote() + escape_json(xp), quote() + tp)) by {
                let a = quote() + escape_json(xp);
                assert(a.subrange(a.len() - (tp.len() + 1), a.len() as int) =~= qe.subrange(
                    n - qt.len(),
                    n - 1,
                ));
                assert(qe.subrange(n - qt.len(), n - 1) =~= qt.subrange(0, qt.len() - 1));
                assert(qt.subrange(0, qt.len() - 1) =~= quote() + tp);
            }
            lemma_escaped_suffix(xp, tp);
            let b = quote() + xp;
            let bx = quote() + x;
            assert(bx =~= b.push(c));
            assert(b.subrange(b.len() - (tp.len() + 1), b.len() as int) =~= quote() + tp);
            assert(bx.subrange(bx.len() - qt.len(), bx.len() as int) =~= (quote() + tp).push(c));
            assert((quote() + tp).push(c) =~= qt);
        }
    }
}

/// A quoted name found at a quote of a written string
/// `"` + escape_json(x) + `"` ends at the string's closing quote, when the
/// character after the string differs from the name's first one.
pub proof fn lemma_name_in_string_closes(
    s: Seq<char>,
    p: int,
    x: Seq<char>,
    name: Seq<char>,
    j: int,
)
    requires
        plain_name(name),
        0 <= p,
        p + escape_json(x).len() + 2 <= s.len(),
        s.subrange(p, p + escape_json(x).len() + 2) == quoted(escape_json(x)),
        p + escape_json(x).len() + 2 < s.len() ==> s[p + escape_json(x).len() + 2] != name[0],
        p <= j <= p + escape_json(x).len() + 1,
        matches_at(s, quoted(name), j),
    ensures
        j + name.len() + 1 == p + escape_json(x).len() + 1,
        ends_with(quote() + escape_json(x), quote() + name),
{
    let e = escape_json(x);
    let l = name.len() as int;
    let cq = p + e.len() + 1;
    let key = quoted(name);
    assert(s[cq] == '"') by {
        assert(s[cq] == s.subrange(p, p + e.len() + 2)[e.len() + 1int]);
    }
    assert(s.subrange(j, j + key.len())[0] == key[0]);
    assert(s[j] == '"');
    assert(s[j + 1] == s.subrange(j, j + key.len())[1]);
    assert(s[j + 1] == name[0]);
    if j == cq {
        assert(false);
    }
    let m = j + 1 + l;
    assert(s[m] == s.subrange(j, j + key.len())[l + 1]);
    assert(s[m] == '"');
    assert forall|i: int| j + 1 <= i < m implies s[i] == #[trigger] name[i - j - 1] by {
        assert(s[i] == s.subrange(j, j + key.len())[i - j]);
    }
    if cq < m {
        assert(s[cq] == name[cq - j - 1]);
        assert(false);
    }
    if m < cq {
        lemma_escape_json_chars(x);
        assert(s[m] == s.subrange(p, p + e.len() + 2)[m - p]);
        assert(e[m - p - 1] == '"');
        assert(e[m - p - 2] == '\\');
        assert(s[m - 1] == s.subrange(p, p + e.len() + 2)[m - p - 1]);
        assert(s[m - 1] == s.subrange(j, j + key.len())[l]);
        assert(key[l] == name[l - 1]);
        assert(false);
    }
    assert(m == cq);
    let qe = quote() + e;
    assert(j == p + e.len() - l);
    assert forall|i: int| 0 <= i < l + 1 implies #[trigger] qe.subrange(
        qe.len() - (l + 1),
        qe.len() as int,
    )[i] == (quote() + name)[i] by {
        let k = e.len() - l + i;
        assert(qe.subrange(qe.len() - (l + 1), qe.len() as int)[i] == qe[k]);
        assert(qe[k] == quoted(e)[k]);
        assert(quoted(e)[k] == s.subrange(p, p + e.len() + 2)[k]);
        assert(s.subrange(p, p + e.len() + 2)[k] == s[j + i]);
        assert(s[j + i] == s.subrange(j, j + key.len())[i]);
        assert(key[i] == (quote() + name)[i]);
    }
    assert(qe.subrange(qe.len() - (l + 1), qe.len() as int) =~= quote() + name);
}

/// A quoted name is found at no quote of a written string
/// `"` + escape_json(x) + `"`, unless the text after a quote in `x` is the
/// name itself; the character after the string must differ from the
/// name's first one.
pub proof fn lemma_no_name_in_string(s: Seq<char>, p: int, x: Seq<char>, name: Seq<char>, j: int)
    requires
        plain_name(name),
        0 <= p,
        p + escape_json(x).len() + 2 <= s.len(),
        s.subrange(p, p + escape_json(x).len() + 2) == quoted(escape_json(x)),
        p + escape_json(x).len() + 2 < s.len() ==> s[p + escape_json(x).len() + 2] != name[0],
        !ends_with(quote() + x, quote() + name),
        p <= j <= p + escape_json(x).len() + 1,
    ensures
        !matches_at(s, quoted(name), j),
{
    if matches_at(s, quoted(name), j) {
        lemma_name_in_string_closes(s, p, x, name, j);
        lemma_escaped_suffix(x, name);
    }
}

/// The bracket scanner steps over a written string as one unit.
pub proof fn lemma_close_scan_string(
    s: Seq<char>,
    p: int,
    x: Seq<char>,
    depth: int,
    brackets: bool,
)
    requires
        0 <= p,
        p + escape_json(x).len() + 2 <= s.len(),
        s.subrange(p, p + escape_json(x).len() + 2) == quoted(escape_json(x)),
    ensures
        close_scan(s, p, depth, false, false, brackets) == close_scan(
            s,
            p + escape_json(x).len() + 2,
            depth,
            false,
            false,
            brackets,
        ),
{
    let e = escape_json(x);
    let w = s.subrange(p, p + e.len() + 2);
    assert(s[p] == w[0]);
    assert(s.subrange(p + 1, p + 1 + e.len()) =~= e) by {
        assert forall|k: int| 0 <= k < e.len() implies s.subrange(p + 1, p + 1 + e.len())[k]
            == e[k] by {
            assert(s[p + 1 + k] == w[1 + k]);
            assert(w[1 + k] == quoted(e)[1 + k]);
        }
    }
    assert(s[p + 1 + e.len()] == w[e.len() + 1int]);
    lemma_close_scan_inside(s, p + 1, x, depth, brackets);
}

proof fn lemma_close_scan_inside(s: Seq<char>, i: int, x: Seq<char>, depth: int, brackets: bool)
    requires
        1 <= i,
        i + escape_json(x).len() + 1 <= s.len(),
        s.subrange(i, i + escape_json(x).len()) == escape_json(x),
        s[i + escape_json(x).len()] == '"',
    ensures
        close_scan(s, i, depth, true, false, brackets) == close_scan(
            s,
            i + escape_json(x).len() + 1,
            depth,
            false,
            false,
            brackets,
        ),
    decreases x.len(),
{
    if x.len() > 0 {
        let c = x[0];
        let h = escape_char(c);
        let r = x.drop_first();
        assert(escape_json(x) == h + escape_json(r));
        let e = escape_json(x);
        assert(s[i] == e[0]) by {
            assert(s[i] == s.subrange(i, i + e.len())[0]);
        }
        assert(s.subrange(i + h.len(), i + h.len() + escape_json(r).len()) =~= escape_json(r))
            by {
            assert forall|k: int| 0 <= k < escape_json(r).len() implies s.subrange(
                i + h.len(),
                i + h.len() + escape_json(r).len(),
            )[k] == escape_json(r)[k] by {
                assert(s[i + h.len() + k] == s.subrange(i, i + e.len())[h.len() + k]);
            }
        }
        assert(s[i + h.len() + escape_json(r).len()] == '"');
        lemma_close_scan_inside(s, i + h.len(), r, depth, brackets);
        if h.len() == 2 {
            assert(s[i] == '\\');
            assert(close_scan(s, i, depth, true, false, brackets) == close_scan(
                s,
                i + 1,
                depth,
                true,
                true,
                brackets,
            ));
            assert(close_scan(s, i + 1, depth, true, true, brackets) == close_scan(
                s,
                i + 2,
                depth,
                true,
                false,
                brackets,
            ));
        } else {
            assert(h =~= seq![c]);
            assert(s[i] == c);
            assert(c != '"' && c != '\\');
            assert(close_scan(s, i, depth, true, false, brackets) == close_scan(
                s,
                i + 1,
                depth,
                true,
                false,
                brackets,
            ));
        }
    } else {
        assert(escape_json(x).len() == 0);
        assert(s[i] == '"');
        assert(close_scan(s, i, depth, true, false, brackets) == close_scan(
            s,
            i + 1,
            depth,
            false,
            false,
            brackets,
        ));
    }
}

} // verus!
