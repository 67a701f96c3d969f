//! The recent-files list: at most a hundred entries, most recent first.
use vstd::prelude::*;

use crate::paths::{path_key_of, same_path};

verus! {

/// The entries of `s` with time (or rank) `t`, in their order in `s`.
pub open spec fn with_time<K>(s: Seq<(K, u64)>, t: u64) -> Seq<(K, u64)>
    decreases s.len(),
{
    if s.len() == 0 {
        Seq::empty()
    } else {
        with_time(s.drop_last(), t) + (if s.last().1 == t {
            seq![s.last()]
        } else {
            Seq::empty()
        })
    }
}

/// Times never increase along `s`.
pub open spec fn sorted_desc<K>(s: Seq<(K, u64)>) -> bool {
    forall|i: int, j: int| 0 <= i < j < s.len() ==> (#[trigger] s[i]).1 >= (#[trigger] s[j]).1
}

/// `o` is `s` ordered from the most recent entry to the oldest, entries with
/// the same time keeping their order in `s` (a stable sort).
pub open spec fn stable_sorted_desc<K>(o: Seq<(K, u64)>, s: Seq<(K, u64)>) -> bool {
    sorted_desc(o) && forall|t: u64| #[trigger] with_time(o, t) == with_time(s, t)
}

/// The first index of an entry that names the same path as `path` (see
/// `same_path`; `windows` selects the host's separators).
pub open spec fn path_index(s: Seq<(Seq<char>, u64)>, path: Seq<char>, windows: bool) -> Option<int> {
    if exists|i: int| 0 <= i < s.len() && same_path((#[trigger] s[i]).0, path, windows) {
        Some(
            choose|i: int|
                0 <= i < s.len() && same_path((#[trigger] s[i]).0, path, windows) && forall|j: int|
                    0 <= j < i ==> !same_path(s[j].0, path, windows),
        )
    } else {
        None
    }
}

/// `s` after opening `path` at `now`: the first entry that names the same
/// path keeps its text and gets the new time, or an entry is appended.
pub open spec fn touch(s: Seq<(Seq<char>, u64)>, path: Seq<char>, now: u64, windows: bool) -> Seq<(Seq<char>, u64)> {
    match path_index(s, path, windows) {
        Some(i) => s.update(i, (s[i].0, now)),
        None => s.push((path, now)),
    }
}

/// The most entries the list keeps.
pub open spec fn max_recent() -> nat {
    100
}

pub proof fn lemma_path_index(s: Seq<(Seq<char>, u64)>, path: Seq<char>, windows: bool)
    ensures
        path_index(s, path, windows) matches Some(i) ==> 0 <= i < s.len() && same_path(
            s[i].0,
            path,
            windows,
        ) && forall|j: int| 0 <= j < i ==> !same_path(s[j].0, path, windows),
        path_index(s, path, windows) is None ==> forall|i: int|
            0 <= i < s.len() ==> !same_path((#[trigger] s[i]).0, path, windows),
{
    if exists|i: int| 0 <= i < s.len() && same_path((#[trigger] s[i]).0, path, windows) {
        let k = choose|i: int| 0 <= i < s.len() && same_path((#[trigger] s[i]).0, path, windows);
        lemma_first_exists(s, path, windows, k);
    }
}

proof fn lemma_first_exists(s: Seq<(Seq<char>, u64)>, path: Seq<char>, windows: bool, k: int)
    requires
        0 <= k < s.len(),
        same_path(s[k].0, path, windows),
    ensures
        exists|i: int|
            0 <= i < s.len() && same_path((#[trigger] s[i]).0, path, windows) && forall|j: int|
                0 <= j < i ==> !same_path(s[j].0, path, windows),
    decreases k,
{
    if exists|j: int| 0 <= j < k && same_path(s[j].0, path, windows) {
        let j = choose|j: int| 0 <= j < k && same_path(s[j].0, path, windows);
        lemma_first_exists(s, path, windows, j);
    } else {
        assert(forall|j: int| 0 <= j < k ==> !same_path(s[j].0, path, windows));
    }
}

pub proof fn lemma_with_time_add<K>(a: Seq<(K, u64)>, b: Seq<(K, u64)>, t: u64)
    ensures
        with_time(a + b, t) == with_time(a, t) + with_time(b, t),
    decreases b.len(),
{
    if b.len() == 0 {
        assert(a + b =~= a);
        assert(with_time(a, t) + with_time(b, t) =~= with_time(a, t));
    } else {
        assert((a + b).drop_last() =~= a + b.drop_last());
        assert((a + b).last() == b.last());
        lemma_with_time_add(a, b.drop_last(), t);
        assert(with_time(a + b, t) =~= with_time(a, t) + with_time(b, t));
    }
}

pub proof fn lemma_with_time_one<K>(x: (K, u64), t: u64)
    ensures
        with_time(seq![x], t) == (if x.1 == t {
            seq![x]
        } else {
            Seq::<(K, u64)>::empty()
        }),
{
    assert(seq![x].drop_last() =~= Seq::<(K, u64)>::empty());
    assert(with_time(Seq::<(K, u64)>::empty(), t) =~= Seq::<(K, u64)>::empty());
    assert(seq![x].last() == x);
    assert(with_time(seq![x], t) =~= (if x.1 == t {
        seq![x]
    } else {
        Seq::<(K, u64)>::empty()
    }));
}

pub proof fn lemma_with_time_none<K>(s: Seq<(K, u64)>, t: u64)
    requires
        forall|i: int| 0 <= i < s.len() ==> (#[trigger] s[i]).1 != t,
    ensures
        with_time(s, t) == Seq::<(K, u64)>::empty(),
    decreases s.len(),
{
    if s.len() > 0 {
        lemma_with_time_none(s.drop_last(), t);
        assert(s.last() == s[s.len() - 1]);
        assert(with_time(s, t) =~= Seq::<(K, u64)>::empty());
    }
}

/// Inserting `x` at the first position whose time is older keeps the
/// order stable and sorted.
pub proof fn lemma_insert_sorted<K>(o: Seq<(K, u64)>, x: (K, u64), p: int)
    requires
        sorted_desc(o),
        0 <= p <= o.len(),
        forall|j: int| 0 <= j < p ==> (#[trigger] o[j]).1 >= x.1,
        p < o.len() ==> o[p].1 < x.1,
    ensures
        sorted_desc(o.insert(p, x)),
        forall|t: u64| #[trigger] with_time(o.insert(p, x), t) == with_time(o, t) + with_time(
            seq![x],
            t,
        ),
{
    let n = o.insert(p, x);
    o.insert_ensures(p, x);
    assert forall|i: int, j: int| 0 <= i < j < n.len() implies (#[trigger] n[i]).1 >= (
    #[trigger] n[j]).1 by {
        if j < p {
        } else if j == p {
            assert(n[i] == o[i]);
        } else if i < p {
            assert(n[j] == o[j - 1]);
            assert(n[i] == o[i]);
        } else if i == p {
            assert(n[j] == o[j - 1]);
            assert(o[p].1 >= o[j - 1].1 || j - 1 == p);
        } else {
            assert(n[j] == o[j - 1]);
            assert(n[i] == o[i - 1]);
        }
    }
    assert forall|t: u64| #[trigger] with_time(n, t) == with_time(o, t) + with_time(seq![x], t) by {
        let a = o.subrange(0, p);
        let b = o.subrange(p, o.len() as int);
        assert(n =~= a + seq![x] + b);
        assert(o =~= a + b);
        lemma_with_time_add(a + seq![x], b, t);
        lemma_with_time_add(a, seq![x], t);
        lemma_with_time_add(a, b, t);
        lemma_with_time_one(x, t);
        if x.1 == t {
            assert forall|i: int| 0 <= i < b.len() implies (#[trigger] b[i]).1 != t by {
                assert(b[i] == o[p + i]);
                assert(o[p].1 >= o[p + i].1 || i == 0);
            }
            lemma_with_time_none(b, t);
            assert(with_time(n, t) =~= with_time(o, t) + with_time(seq![x], t));
        } else {
            assert(with_time(n, t) =~= with_time(o, t) + with_time(seq![x], t));
        }
    }
}

// ---------------------------------------------------------------------------
// Newest first: the stable sort by time, as insertions
// ---------------------------------------------------------------------------

/// Where an entry of time `t` goes in the newest-first list `o`: after
/// every entry at least as recent.
pub open spec fn first_older<K>(o: Seq<(K, u64)>, t: u64) -> int
    decreases o.len(),
{
    if o.len() == 0 {
        0
    } else if o[0].1 < t {
        0
    } else {
        1 + first_older(o.drop_first(), t)
    }
}

/// `s` sorted newest first, entries with the same time in their order in
/// `s`: each entry in turn is put after every entry at least as recent.
pub open spec fn sort_desc<K>(s: Seq<(K, u64)>) -> Seq<(K, u64)>
    decreases s.len(),
{
    if s.len() == 0 {
        s
    } else {
        let o = sort_desc(s.drop_last());
        o.insert(first_older(o, s.last().1), s.last())
    }
}

/// The recent files kept of the list `s`: newest first, at most a hundred.
pub open spec fn newest_first<K>(s: Seq<(K, u64)>) -> Seq<(K, u64)> {
    let o = sort_desc(s);
    if o.len() <= max_recent() {
        o
    } else {
        o.take(max_recent() as int)
    }
}

/// No two entries have paths with the same `key`.
pub open spec fn paths_distinct<K, V>(s: Seq<(K, u64)>, key: spec_fn(K) -> V) -> bool {
    forall|i: int, j: int|
        0 <= i < j < s.len() ==> key((#[trigger] s[i]).0) != key((#[trigger] s[j]).0)
}

pub proof fn lemma_first_older<K>(o: Seq<(K, u64)>, t: u64)
    ensures
        0 <= first_older(o, t) <= o.len(),
        forall|j: int| 0 <= j < first_older(o, t) ==> (#[trigger] o[j]).1 >= t,
        first_older(o, t) < o.len() ==> o[first_older(o, t)].1 < t,
    decreases o.len(),
{
    if o.len() > 0 && o[0].1 >= t {
        let r = o.drop_first();
        lemma_first_older(r, t);
        assert forall|j: int| 0 <= j < first_older(o, t) implies (#[trigger] o[j]).1 >= t by {
            if j > 0 {
                assert(o[j] == r[j - 1]);
            }
        }
    }
}

/// The place found by scanning for the first older entry is `first_older`.
pub proof fn lemma_first_older_is<K>(o: Seq<(K, u64)>, t: u64, p: int)
    requires
        0 <= p <= o.len(),
        forall|j: int| 0 <= j < p ==> (#[trigger] o[j]).1 >= t,
        p < o.len() ==> o[p].1 < t,
    ensures
        first_older(o, t) == p,
    decreases o.len(),
{
    if o.len() > 0 && p > 0 {
        let r = o.drop_first();
        assert(o[0].1 >= t);
        assert forall|j: int| 0 <= j < p - 1 implies (#[trigger] r[j]).1 >= t by {
            assert(r[j] == o[j + 1]);
        }
        if p - 1 < r.len() {
            assert(r[p - 1] == o[p]);
        }
        lemma_first_older_is(r, t, p - 1);
    }
}

/// The newest-first order is a stable sort of `s`.
pub proof fn lemma_sort_desc_stable<K>(s: Seq<(K, u64)>)
    ensures
        sort_desc(s).len() == s.len(),
        stable_sorted_desc(sort_desc(s), s),
    decreases s.len(),
{
    if s.len() > 0 {
        let p = s.drop_last();
        let x = s.last();
        let o = sort_desc(p);
        lemma_sort_desc_stable(p);
        lemma_first_older(o, x.1);
        lemma_insert_sorted(o, x, first_older(o, x.1));
        assert forall|t: u64| #[trigger] with_time(sort_desc(s), t) == with_time(s, t) by {
            lemma_with_time_one(x, t);
        }
    }
}

/// A list already newest first is kept as it is.
pub proof fn lemma_sort_desc_sorted<K>(s: Seq<(K, u64)>)
    requires
        sorted_desc(s),
    ensures
        sort_desc(s) == s,
    decreases s.len(),
{
    if s.len() > 0 {
        let p = s.drop_last();
        assert forall|i: int, j: int| 0 <= i < j < p.len() implies (#[trigger] p[i]).1 >= (
        #[trigger] p[j]).1 by {
            assert(p[i] == s[i] && p[j] == s[j]);
        }
        lemma_sort_desc_sorted(p);
        assert forall|j: int| 0 <= j < p.len() implies (#[trigger] p[j]).1 >= s.last().1 by {
            assert(p[j] == s[j]);
        }
        lemma_first_older_is(p, s.last().1, p.len() as int);
        assert(p.insert(p.len() as int, s.last()) =~= s);
    }
}

/// The recent files kept of any list, as reading the file or opening a
/// file leaves them: at most a hundred, newest first, the newest of the list
/// in stable order.
pub proof fn lemma_newest_first(s: Seq<(Seq<char>, u64)>)
    ensures
        newest_first(s).len() <= max_recent(),
        newest_first(s).len() == if s.len() <= max_recent() {
            s.len()
        } else {
            max_recent()
        },
        sorted_desc(newest_first(s)),
        newest_first(s) == sort_desc(s).take(newest_first(s).len() as int),
        stable_sorted_desc(sort_desc(s), s),
{
    lemma_sort_desc_stable(s);
    let o = sort_desc(s);
    let r = newest_first(s);
    assert(r =~= o.take(r.len() as int));
    assert forall|i: int, j: int| 0 <= i < j < r.len() implies (#[trigger] r[i]).1 >= (
    #[trigger] r[j]).1 by {
        assert(r[i] == o[i] && r[j] == o[j]);
    }
}

/// Sorting keeps the entries: the same ones, each as often.
pub proof fn lemma_sort_desc_entries<K>(s: Seq<(K, u64)>)
    ensures
        sort_desc(s).to_multiset() == s.to_multiset(),
    decreases s.len(),
{
    broadcast use vstd::seq_lib::group_to_multiset_ensures;

    if s.len() > 0 {
        let p = s.drop_last();
        let o = sort_desc(p);
        lemma_sort_desc_entries(p);
        lemma_first_older(o, s.last().1);
        let i = first_older(o, s.last().1);
        let a = o.subrange(0, i);
        let b = o.subrange(i, o.len() as int);
        assert(o =~= a + b);
        assert(o.insert(i, s.last()) =~= a + (seq![s.last()] + b));
        vstd::seq_lib::lemma_multiset_commutative(a, seq![s.last()] + b);
        vstd::seq_lib::lemma_multiset_commutative(seq![s.last()], b);
        vstd::seq_lib::lemma_multiset_commutative(a, b);
        assert(s =~= p.push(s.last()));
    }
}

/// Sorting keeps paths distinct.
pub proof fn lemma_sort_desc_distinct<K, V>(s: Seq<(K, u64)>, key: spec_fn(K) -> V)
    requires
        paths_distinct(s, key),
    ensures
        paths_distinct(sort_desc(s), key),
{
    broadcast use vstd::seq_lib::group_to_multiset_ensures;

    let o = sort_desc(s);
    lemma_sort_desc_entries(s);
    lemma_sort_desc_stable(s);
    assert forall|i: int, j: int| 0 <= i < j < o.len() implies key((#[trigger] o[i]).0) != key(
        (#[trigger] o[j]).0,
    ) by {
        if key(o[i].0) == key(o[j].0) {
            assert(o.contains(o[i]) && o.contains(o[j]));
            assert(o.to_multiset().count(o[i]) > 0 && o.to_multiset().count(o[j]) > 0);
            assert(s.to_multiset().count(o[i]) > 0 && s.to_multiset().count(o[j]) > 0);
            assert(s.contains(o[i]) && s.contains(o[j]));
            let a = choose|a: int| 0 <= a < s.len() && s[a] == o[i];
            let b = choose|b: int| 0 <= b < s.len() && s[b] == o[j];
            if a != b {
                if a < b {
                    assert(key(s[a].0) != key(s[b].0));
                } else {
                    assert(key(s[b].0) != key(s[a].0));
                }
            } else {
                // The same entry twice in the sorted list: it occurs once in `s`.
                lemma_count_distinct(s, key, a);
                assert(o.to_multiset().count(o[i]) >= 2) by {
                    lemma_count_two(o, i, j);
                }
            }
        }
    }
}

/// An entry of a list with distinct paths occurs once.
proof fn lemma_count_distinct<K, V>(s: Seq<(K, u64)>, key: spec_fn(K) -> V, a: int)
    requires
        paths_distinct(s, key),
        0 <= a < s.len(),
    ensures
        s.to_multiset().count(s[a]) == 1,
    decreases s.len(),
{
    broadcast use vstd::seq_lib::group_to_multiset_ensures;

    let p = s.drop_last();
    assert(s =~= p.push(s.last()));
    assert forall|i: int, j: int| 0 <= i < j < p.len() implies key((#[trigger] p[i]).0) != key(
        (#[trigger] p[j]).0,
    ) by {
        assert(p[i] == s[i] && p[j] == s[j]);
    }
    if a == s.len() - 1 {
        assert forall|k: int| 0 <= k < p.len() implies p[k] != s[a] by {
            assert(p[k] == s[k]);
            assert(key(s[k].0) != key(s[a].0));
        }
        assert(!p.contains(s[a]));
        assert(p.to_multiset().count(s[a]) == 0);
    } else {
        lemma_count_distinct(p, key, a);
        assert(p[a] == s[a]);
        assert(key(s[a].0) != key(s.last().0));
    }
}

/// An entry at two places occurs at least twice.
proof fn lemma_count_two<K>(o: Seq<(K, u64)>, i: int, j: int)
    requires
        0 <= i < j < o.len(),
        o[i] == o[j],
    ensures
        o.to_multiset().count(o[i]) >= 2,
{
    broadcast use vstd::seq_lib::group_to_multiset_ensures;

    let a = o.subrange(0, j);
    let b = o.subrange(j, o.len() as int);
    assert(o =~= a + b);
    vstd::seq_lib::lemma_multiset_commutative(a, b);
    assert(a.contains(o[i])) by {
        assert(a[i] == o[i]);
    }
    assert(b.contains(o[i])) by {
        assert(b[0] == o[j]);
    }
}

/// Opening a file keeps the recent entries naming distinct paths, keeps at
/// most a hundred entries newest first, and every entry for another path is
/// one that was there before.
pub proof fn lemma_recent_after_open(
    s: Seq<(Seq<char>, u64)>,
    path: Seq<char>,
    now: u64,
    windows: bool,
)
    requires
        paths_distinct(s, path_key_of(windows)),
    ensures
        paths_distinct(newest_first(touch(s, path, now, windows)), path_key_of(windows)),
        newest_first(touch(s, path, now, windows)).len() <= max_recent(),
        sorted_desc(newest_first(touch(s, path, now, windows))),
        forall|i: int|
            0 <= i < newest_first(touch(s, path, now, windows)).len() && !same_path(
                (#[trigger] newest_first(touch(s, path, now, windows))[i]).0,
                path,
                windows,
            ) ==> s.contains(newest_first(touch(s, path, now, windows))[i]),
{
    broadcast use vstd::seq_lib::group_to_multiset_ensures;

    let key = path_key_of(windows);
    let u = touch(s, path, now, windows);
    lemma_path_index(s, path, windows);
    assert(paths_distinct(u, key)) by {
        assert forall|i: int, j: int| 0 <= i < j < u.len() implies key((#[trigger] u[i]).0) != key(
            (#[trigger] u[j]).0,
        ) by {
            match path_index(s, path, windows) {
                Some(k) => {
                    assert(u[i].0 == s[i].0 && u[j].0 == s[j].0);
                },
                None => {
                    if j == s.len() {
                        assert(u[i] == s[i]);
                        assert(!same_path(s[i].0, path, windows));
                    } else {
                        assert(u[i] == s[i] && u[j] == s[j]);
                    }
                },
            }
        }
    }
    let o = sort_desc(u);
    lemma_sort_desc_distinct(u, key);
    lemma_sort_desc_stable(u);
    lemma_sort_desc_entries(u);
    let r = newest_first(u);
    assert forall|i: int|
        0 <= i < r.len() && !same_path((#[trigger] r[i]).0, path, windows) implies s.contains(
        r[i],
    ) by {
        assert(r[i] == o[i]);
        assert(o.contains(o[i]));
        assert(o.to_multiset().count(o[i]) > 0);
        assert(u.to_multiset().count(o[i]) > 0);
        assert(u.contains(o[i]));
        let k = choose|k: int| 0 <= k < u.len() && u[k] == o[i];
        match path_index(s, path, windows) {
            Some(m) => {
                if k != m {
                    assert(u[k] == s[k]);
                } else {
                    assert(u[k].0 == s[m].0);
                    assert(same_path(s[m].0, path, windows));
                }
            },
            None => {
                if k < s.len() {
                    assert(u[k] == s[k]);
                }
            },
        }
    }
}

} // verus!
