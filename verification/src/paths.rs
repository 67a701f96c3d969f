//! When two paths name the same path: they are compared part by part, as
//! `std::path::Path` compares them, so that repeated separators, a trailing
//! separator and `.` parts after the first make no difference. On Windows
//! `\` separates parts as `/` does; drive and UNC prefixes are compared as
//! plain parts.
use vstd::prelude::*;

verus! {

/// What a path is made of, as `path_key` reads it.
pub type PathKey = (bool, bool, Seq<Seq<char>>);

/// A character that separates the parts of a path.
pub open spec fn is_sep(c: char, windows: bool) -> bool {
    c == '/' || (windows && c == '\\')
}

/// The text of `p` cut at each separator: one piece more than there are
/// separators, empty pieces included.
pub open spec fn pieces(p: Seq<char>, windows: bool) -> Seq<Seq<char>>
    decreases p.len(),
{
    if p.len() == 0 {
        seq![Seq::empty()]
    } else {
        let r = pieces(p.drop_last(), windows);
        if is_sep(p.last(), windows) {
            r.push(Seq::empty())
        } else {
            r.update(r.len() - 1, r.last().push(p.last()))
        }
    }
}

/// A piece that names something: not empty and not `.`.
pub open spec fn is_name(x: Seq<char>) -> bool {
    x.len() > 0 && x != seq!['.']
}

/// The pieces that name something, in order.
pub open spec fn names(ps: Seq<Seq<char>>) -> Seq<Seq<char>>
    decreases ps.len(),
{
    if ps.len() == 0 {
        Seq::empty()
    } else if is_name(ps.last()) {
        names(ps.drop_last()).push(ps.last())
    } else {
        names(ps.drop_last())
    }
}

/// What a path is made of: whether it starts at the root, whether it
/// starts with the current directory `.`, and the names of its parts.
pub open spec fn path_key(p: Seq<char>, windows: bool) -> PathKey {
    let root = p.len() > 0 && is_sep(p[0], windows);
    let cur = !root && pieces(p, windows)[0] == seq!['.'];
    (root, cur, names(pieces(p, windows)))
}

/// The key of a path as a function, for lists whose paths must differ.
pub open spec fn path_key_of(windows: bool) -> spec_fn(Seq<char>) -> PathKey {
    |p: Seq<char>| path_key(p, windows)
}

/// Whether `a` and `b` name the same path.
pub open spec fn same_path(a: Seq<char>, b: Seq<char>, windows: bool) -> bool {
    path_key(a, windows) == path_key(b, windows)
}

/// Reads the key of `p`: the names of its parts and whether it starts at
/// the root or at `.`.
pub fn path_key_exec(p: &[char], windows: bool) -> (r: (bool, bool, Vec<Vec<char>>))
    ensures
        r.0 == path_key(p@, windows).0,
        r.1 == path_key(p@, windows).1,
        r.2@.len() == path_key(p@, windows).2.len(),
        forall|k: int| 0 <= k < r.2@.len() ==> #[trigger] r.2@[k]@ == path_key(p@, windows).2[k],
{
    let mut out: Vec<Vec<char>> = Vec::new();
    let mut cur: Vec<char> = Vec::new();
    let mut first: Option<Vec<char>> = None;
    let mut i: usize = 0;
    let ghost mut done: Seq<Seq<char>> = Seq::empty();
    while i < p.len()
        invariant
            i <= p@.len(),
            pieces(p@.take(i as int), windows) == done.push(cur@),
            out@.len() == names(done).len(),
            forall|k: int| 0 <= k < out@.len() ==> #[trigger] out@[k]@ == names(done)[k],
            first is None <==> done.len() == 0,
            first matches Some(f) ==> f@ == done[0],
        decreases p.len() - i,
    {
        let c = p[i];
        proof {
            assert(p@.take(i + 1).drop_last() =~= p@.take(i as int));
            assert(p@.take(i + 1).last() == c);
        }
        let sep = c == '/' || (windows && c == '\\');
        if sep {
            let keep = cur.len() > 0 && !(cur.len() == 1 && cur[0] == '.');
            assert(keep == is_name(cur@)) by {
                if cur@.len() == 1 && cur@ != seq!['.'] {
                    assert(cur@[0] != '.') by {
                        if cur@[0] == '.' {
                            assert(cur@ =~= seq!['.']);
                        }
                    }
                }
            }
            let ghost prev = done;
            let piece = cur;
            if first.is_none() {
                first = Some(piece.clone());
            }
            if keep {
                out.push(piece);
            }
            cur = Vec::new();
            proof {
                done = prev.push(piece@);
                assert(done.drop_last() =~= prev);
                assert(done.last() == piece@);
                assert(pieces(p@.take(i + 1), windows) =~= done.push(cur@));
            }
        } else {
            cur.push(c);
            assert(pieces(p@.take(i + 1), windows) =~= done.push(cur@));
        }
        i = i + 1;
    }
    assert(p@.take(i as int) =~= p@);
    let ghost all = done.push(cur@);
    let keep = cur.len() > 0 && !(cur.len() == 1 && cur[0] == '.');
    assert(keep == is_name(cur@)) by {
        if cur@.len() == 1 && cur@ != seq!['.'] {
            assert(cur@[0] != '.') by {
                if cur@[0] == '.' {
                    assert(cur@ =~= seq!['.']);
                }
            }
        }
    }
    let f0 = match first {
        Some(f) => f,
        None => cur.clone(),
    };
    assert(f0@ == all[0]);
    if keep {
        out.push(cur);
    }
    assert(all.drop_last() =~= done);
    let root = p.len() > 0 && (p[0] == '/' || (windows && p[0] == '\\'));
    let dot = !root && f0.len() == 1 && f0[0] == '.';
    assert(dot == path_key(p@, windows).1) by {
        if !root && f0@.len() == 1 && f0@ != seq!['.'] {
            assert(f0@[0] != '.') by {
                if f0@[0] == '.' {
                    assert(f0@ =~= seq!['.']);
                }
            }
        }
        if f0@ == seq!['.'] {
            assert(f0@.len() == 1 && f0@[0] == '.');
        }
    }
    (root, dot, out)
}

/// Whether `a` and `b` name the same path (see `same_path`).
pub fn same_path_exec(a: &[char], b: &[char], windows: bool) -> (r: bool)
    ensures
        r == same_path(a@, b@, windows),
{
    let ka = path_key_exec(a, windows);
    let kb = path_key_exec(b, windows);
    let ghost sa = path_key(a@, windows);
    let ghost sb = path_key(b@, windows);
    if ka.0 != kb.0 || ka.1 != kb.1 || ka.2.len() != kb.2.len() {
        return false;
    }
    let mut k: usize = 0;
    while k < ka.2.len()
        invariant
            k <= ka.2@.len() == kb.2@.len() == sa.2.len() == sb.2.len(),
            forall|j: int| 0 <= j < ka.2@.len() ==> #[trigger] ka.2@[j]@ == sa.2[j],
            forall|j: int| 0 <= j < kb.2@.len() ==> #[trigger] kb.2@[j]@ == sb.2[j],
            forall|j: int| 0 <= j < k ==> sa.2[j] == sb.2[j],
            sa == path_key(a@, windows),
            sb == path_key(b@, windows),
        decreases ka.2.len() - k,
    {
        let x = &ka.2[k];
        let y = &kb.2[k];
        if x.len() != y.len() {
            assert(sa.2[k as int] != sb.2[k as int]);
            return false;
        }
        let mut m: usize = 0;
        while m < x.len()
            invariant
                m <= x@.len() == y@.len(),
                forall|j: int| 0 <= j < m ==> x@[j] == y@[j],
                k < sa.2.len(),
                k < sb.2.len(),
                x@ == sa.2[k as int],
                y@ == sb.2[k as int],
                sa == path_key(a@, windows),
                sb == path_key(b@, windows),
            decreases x.len() - m,
        {
            if x[m] != y[m] {
                assert(sa.2[k as int] != sb.2[k as int]) by {
                    assert(x@[m as int] != y@[m as int]);
                }
                return false;
            }
            m = m + 1;
        }
        assert(x@ =~= y@);
        k = k + 1;
    }
    assert(sa.2 =~= sb.2);
    true
}

} // verus!
