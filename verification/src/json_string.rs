//! Quoted strings in the configuration file: escaping on output and the
//! unescaping reader used by the parser.
use vstd::prelude::*;

use crate::text::{chars_of, string_of};

verus! {

/// How one character is written inside a quoted string.
pub open spec fn escape_char(c: char) -> Seq<char> {
    if c == '"' {
        seq!['\\', '"']
    } else if c == '\\' {
        seq!['\\', '\\']
    } else if c == '\n' {
        seq!['\\', 'n']
    } else if c == '\r' {
        seq!['\\', 'r']
    } else if c == '\t' {
        seq!['\\', 't']
    } else {
        seq![c]
    }
}

/// `s` with every character escaped (`escape_json_string`).
pub open spec fn escape_json(s: Seq<char>) -> Seq<char>
    decreases s.len(),
{
    if s.len() == 0 {
        Seq::empty()
    } else {
        escape_char(s[0]) + escape_json(s.drop_first())
    }
}

/// What the reader produces for a backslash followed by `c`.
pub open spec fn unescape_char(c: char) -> Seq<char> {
    if c == 'n' {
        seq!['\n']
    } else if c == 'r' {
        seq!['\r']
    } else if c == 't' {
        seq!['\t']
    } else if c == '\\' {
        seq!['\\']
    } else if c == '"' {
        seq!['"']
    } else if c == '/' {
        seq!['/']
    } else {
        seq!['\\', c]
    }
}

/// Reads string content starting at `i` (just after an opening quote): the
/// unescaped text up to the first unescaped quote, and the index of that
/// quote, or `None` when the text ends first.
pub open spec fn read_string(s: Seq<char>, i: int) -> (Seq<char>, Option<int>)
    decreases s.len() - i,
{
    if i < 0 || i >= s.len() {
        (Seq::empty(), None)
    } else if s[i] == '"' {
        (Seq::empty(), Some(i))
    } else if s[i] == '\\' {
        if i + 1 < s.len() {
            let r = read_string(s, i + 2);
            (unescape_char(s[i + 1]) + r.0, r.1)
        } else {
            (Seq::empty(), None)
        }
    } else {
        let r = read_string(s, i + 1);
        (seq![s[i]] + r.0, r.1)
    }
}

pub proof fn lemma_read_string_bounds(s: Seq<char>, i: int)
    requires
        0 <= i,
    ensures
        read_string(s, i).1 matches Some(k) ==> i <= k < s.len() && s[k] == '"',
    decreases s.len() - i,
{
    if i < s.len() && s[i] != '"' {
        if s[i] == '\\' {
            if i + 1 < s.len() {
                lemma_read_string_bounds(s, i + 2);
            }
        } else {
            lemma_read_string_bounds(s, i + 1);
        }
    }
}

pub proof fn lemma_escape_json_concat(a: Seq<char>, b: Seq<char>)
    ensures
        escape_json(a + b) == escape_json(a) + escape_json(b),
    decreases a.len(),
{
    if a.len() == 0 {
        assert(a + b =~= b);
    } else {
        assert((a + b).drop_first() =~= a.drop_first() + b);
        lemma_escape_json_concat(a.drop_first(), b);
        assert(escape_json(a + b) == escape_char(a[0]) + escape_json(a.drop_first() + b));
    }
}

/// An escaped string is read back exactly, up to the quote that follows it.
pub proof fn lemma_read_escaped(pre: Seq<char>, x: Seq<char>, rest: Seq<char>)
    ensures
        read_string(pre + escape_json(x) + seq!['"'] + rest, pre.len() as int) == (
            x,
            Some(pre.len() + escape_json(x).len() as int),
        ),
    decreases x.len(),
{
    let s = pre + escape_json(x) + seq!['"'] + rest;
    if x.len() == 0 {
        assert(s[pre.len() as int] == '"');
        assert(x =~= Seq::<char>::empty());
    } else {
        let c = x[0];
        let ec = escape_char(c);
        let pre2 = pre + ec;
        assert(escape_json(x) == ec + escape_json(x.drop_first()));
        assert(s =~= pre2 + escape_json(x.drop_first()) + seq!['"'] + rest);
        lemma_read_escaped(pre2, x.drop_first(), rest);
        assert(x =~= seq![c] + x.drop_first());
        if ec.len() == 2 {
            assert(s[pre.len() as int] == '\\');
            assert(s[pre.len() as int + 1] == ec[1]);
            assert(unescape_char(ec[1]) =~= seq![c]);
        } else {
            assert(s[pre.len() as int] == c);
        }
    }
}

/// Appends `escape_json(s)` to `out`.
pub fn escape_into(out: &mut Vec<char>, s: &[char])
    ensures
        final(out)@ == old(out)@ + escape_json(s@),
{
    let mut i: usize = 0;
    while i < s.len()
        invariant
            i <= s@.len(),
            out@ == old(out)@ + escape_json(s@.take(i as int)),
        decreases s.len() - i,
    {
        let c = s[i];
        proof {
            lemma_escape_json_concat(s@.take(i as int), seq![c]);
            assert(s@.take(i + 1) =~= s@.take(i as int) + seq![c]);
            assert(escape_json(seq![c]) =~= escape_char(c) + escape_json(seq![c].drop_first()));
            assert(seq![c].drop_first() =~= Seq::<char>::empty());
        }
        if c == '"' {
            out.push('\\');
            out.push('"');
        } else if c == '\\' {
            out.push('\\');
            out.push('\\');
        } else if c == '\n' {
            out.push('\\');
            out.push('n');
        } else if c == '\r' {
            out.push('\\');
            out.push('r');
        } else if c == '\t' {
            out.push('\\');
            out.push('t');
        } else {
            out.push(c);
        }
        i += 1;
        assert(out@ =~= old(out)@ + escape_json(s@.take(i as int)));
    }
    assert(s@.take(i as int) =~= s@);
}

/// Escapes a string for the configuration file.
pub fn escape_json_string(s: &str) -> (r: String)
    ensures
        r@ == escape_json(s@),
{
    let v = chars_of(s);
    let mut out: Vec<char> = Vec::new();
    escape_into(&mut out, v.as_slice());
    assert(out@ =~= escape_json(s@));
    string_of(out.as_slice())
}

/// Reads the content of a quoted string that starts at `start` (just after
/// its opening quote). Returns the unescaped text and the offset of the
/// closing quote from `start`, or 0 when there is none.
pub fn parse_json_string_content(s: &[char], start: usize) -> (r: (Vec<char>, usize))
    ensures
        r.0@ == read_string(s@, start as int).0,
        r.1 == (match read_string(s@, start as int).1 {
            Some(k) => (k - start) as usize,
            None => 0usize,
        }),
{
    let mut acc: Vec<char> = Vec::new();
    let mut i = start;
    proof {
        lemma_read_string_bounds(s@, start as int);
    }
    while i < s.len()
        invariant
            start <= i,
            read_string(s@, start as int).0 == acc@ + read_string(s@, i as int).0,
            read_string(s@, start as int).1 == read_string(s@, i as int).1,
            read_string(s@, start as int).1 matches Some(k) ==> i <= k,
        decreases s.len() - i,
    {
        let c = s[i];
        proof {
            lemma_read_string_bounds(s@, i as int);
        }
        if c == '"' {
            assert(acc@ + Seq::<char>::empty() =~= acc@);
            return (acc, i - start);
        } else if c == '\\' {
            if i + 1 < s.len() {
                let n = s[i + 1];
                let ghost before = acc@;
                if n == 'n' {
                    acc.push('\n');
                } else if n == 'r' {
                    acc.push('\r');
                } else if n == 't' {
                    acc.push('\t');
                } else if n == '\\' {
                    acc.push('\\');
                } else if n == '"' {
                    acc.push('"');
                } else if n == '/' {
                    acc.push('/');
                } else {
                    acc.push('\\');
                    acc.push(n);
                }
                assert(acc@ =~= before + unescape_char(n));
                assert(read_string(s@, i as int).0 == unescape_char(n) + read_string(
                    s@,
                    i + 2,
                ).0);
                assert(before + (unescape_char(n) + read_string(s@, i + 2).0) =~= acc@
                    + read_string(s@, i + 2).0);
                i += 2;
                proof {
                    lemma_read_string_bounds(s@, i as int);
                }
            } else {
                assert(acc@ + Seq::<char>::empty() =~= acc@);
                return (acc, 0);
            }
        } else {
            let ghost before = acc@;
            acc.push(c);
            assert(before + (seq![c] + read_string(s@, i + 1).0) =~= acc@ + read_string(
                s@,
                i + 1,
            ).0);
            i += 1;
            proof {
                lemma_read_string_bounds(s@, i as int);
            }
        }
    }
    assert(acc@ + Seq::<char>::empty() =~= acc@);
    (acc, 0)
}

} // verus!
