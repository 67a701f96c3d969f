//! Tables of (key, value) pairs with distinct keys, kept in a vector: what
//! a key maps to, and the table after a key is set or dropped.
use vstd::prelude::*;

use crate::paths::{path_key, same_path_exec, PathKey};
use crate::text::chars_of;

verus! {

/// Where `k` is in the table, if it is.
pub open spec fn find_key<K, V>(s: Seq<(K, V)>, k: K) -> Option<int> {
    if exists|i: int| 0 <= i < s.len() && (#[trigger] s[i]).0 == k {
        Some(choose|i: int| 0 <= i < s.len() && (#[trigger] s[i]).0 == k)
    } else {
        None
    }
}

/// No key occurs twice.
pub open spec fn unique_keys<K, V>(s: Seq<(K, V)>) -> bool {
    forall|i: int, j: int| 0 <= i < j < s.len() ==> (#[trigger] s[i]).0 != (#[trigger] s[j]).0
}

/// The value recorded for `k`.
pub open spec fn get<K, V>(s: Seq<(K, V)>, k: K) -> Option<V> {
    match find_key(s, k) {
        Some(i) => Some(s[i].1),
        None => None,
    }
}

/// The table with `v` recorded for `k`.
pub open spec fn put<K, V>(s: Seq<(K, V)>, k: K, v: V) -> Seq<(K, V)> {
    match find_key(s, k) {
        Some(i) => s.update(i, (k, v)),
        None => s.push((k, v)),
    }
}

/// The table without `k`.
pub open spec fn drop_key<K, V>(s: Seq<(K, V)>, k: K) -> Seq<(K, V)> {
    match find_key(s, k) {
        Some(i) => s.remove(i),
        None => s,
    }
}

pub proof fn lemma_find_key<K, V>(s: Seq<(K, V)>, k: K)
    ensures
        find_key(s, k) matches Some(i) ==> 0 <= i < s.len() && s[i].0 == k,
        find_key(s, k) is None ==> forall|i: int| 0 <= i < s.len() ==> (#[trigger] s[i]).0 != k,
{
}

/// With distinct keys, the key at `i` is found at `i`.
pub proof fn lemma_find_key_at<K, V>(s: Seq<(K, V)>, i: int)
    requires
        unique_keys(s),
        0 <= i < s.len(),
    ensures
        find_key(s, s[i].0) == Some(i),
{
    let j = find_key(s, s[i].0)->0;
    if j != i {
        if j < i {
            assert(s[j].0 != s[i].0);
        } else {
            assert(s[i].0 != s[j].0);
        }
    }
}

/// Recording a value keeps the keys distinct and changes the value of that
/// key only.
pub proof fn lemma_put<K, V>(s: Seq<(K, V)>, k: K, v: V)
    requires
        unique_keys(s),
    ensures
        unique_keys(put(s, k, v)),
        get(put(s, k, v), k) == Some(v),
        forall|k2: K| k2 != k ==> get(put(s, k, v), k2) == get(s, k2),
{
    let r = put(s, k, v);
    lemma_find_key(s, k);
    assert forall|a: int, b: int| 0 <= a < b < r.len() implies (#[trigger] r[a]).0 != (
    #[trigger] r[b]).0 by {
        if b < s.len() && (find_key(s, k) is None || (a != find_key(s, k)->0 && b != find_key(
            s,
            k,
        )->0)) {
            assert(r[a] == s[a] && r[b] == s[b]);
        }
    }
    let i = match find_key(s, k) {
        Some(i) => i,
        None => s.len() as int,
    };
    assert(r[i].0 == k);
    lemma_find_key_at(r, i);
    assert forall|k2: K| k2 != k implies get(r, k2) == get(s, k2) by {
        lemma_find_key(s, k2);
        lemma_find_key(r, k2);
        if find_key(s, k2) is Some {
            let j = find_key(s, k2)->0;
            assert(r[j] == s[j]);
            lemma_find_key_at(r, j);
        } else if find_key(r, k2) is Some {
            let j = find_key(r, k2)->0;
            assert(r[j] == s[j]);
        }
    }
}

/// Dropping a key keeps the keys distinct and changes that key only.
pub proof fn lemma_drop_key<K, V>(s: Seq<(K, V)>, k: K)
    requires
        unique_keys(s),
    ensures
        unique_keys(drop_key(s, k)),
        get(drop_key(s, k), k) is None,
        forall|k2: K| k2 != k ==> get(drop_key(s, k), k2) == get(s, k2),
{
    let r = drop_key(s, k);
    lemma_find_key(s, k);
    match find_key(s, k) {
        Some(i) => {
            assert forall|a: int| 0 <= a < r.len() implies (#[trigger] r[a]) == if a < i {
                s[a]
            } else {
                s[a + 1]
            } by {}
            assert forall|a: int, b: int| 0 <= a < b < r.len() implies (#[trigger] r[a]).0 != (
            #[trigger] r[b]).0 by {
                let sa = if a < i {
                    a
                } else {
                    a + 1
                };
                let sb = if b < i {
                    b
                } else {
                    b + 1
                };
                assert(r[a] == s[sa] && r[b] == s[sb]);
            }
            lemma_find_key(r, k);
            if find_key(r, k) is Some {
                let a = find_key(r, k)->0;
                let sa = if a < i {
                    a
                } else {
                    a + 1
                };
                assert(r[a] == s[sa]);
            }
            assert forall|k2: K| k2 != k implies get(r, k2) == get(s, k2) by {
                lemma_find_key(s, k2);
                lemma_find_key(r, k2);
                if find_key(s, k2) is Some {
                    let j = find_key(s, k2)->0;
                    let a = if j < i {
                        j
                    } else {
                        j - 1
                    };
                    assert(r[a] == s[j]);
                    lemma_find_key_at(r, a);
                } else if find_key(r, k2) is Some {
                    let a = find_key(r, k2)->0;
                    let sa = if a < i {
                        a
                    } else {
                        a + 1
                    };
                    assert(r[a] == s[sa]);
                }
            }
        },
        None => {},
    }
}

/// A table keyed by path: each path by its key (see `path_key`; `windows`
/// selects the host's separators), so that two texts of one path are one
/// key.
pub open spec fn path_table<V>(v: Seq<(String, V)>, windows: bool) -> Seq<(PathKey, V)> {
    Seq::new(v.len(), |i: int| (path_key(v[i].0@, windows), v[i].1))
}

/// A table from watch descriptors to paths, as text.
pub open spec fn wd_table(v: Seq<(i32, String)>) -> Seq<(i32, Seq<char>)> {
    Seq::new(v.len(), |i: int| (v[i].0, v[i].1@))
}

pub(crate) fn find_path<V>(v: &Vec<(String, V)>, p: &String, windows: bool) -> (r: Option<usize>)
    requires
        unique_keys(path_table(v@, windows)),
    ensures
        r matches Some(i) ==> find_key(path_table(v@, windows), path_key(p@, windows)) == Some(
            i as int,
        ),
        r is None ==> find_key(path_table(v@, windows), path_key(p@, windows)) is None,
{
    let ghost t = path_table(v@, windows);
    let ghost key = path_key(p@, windows);
    let pc = chars_of(p.as_str());
    let mut i: usize = 0;
    while i < v.len()
        invariant
            i <= v@.len(),
            t == path_table(v@, windows),
            key == path_key(p@, windows),
            pc@ == p@,
            unique_keys(t),
            forall|k: int| 0 <= k < i ==> (#[trigger] t[k]).0 != key,
        decreases v.len() - i,
    {
        let vc = chars_of(v[i].0.as_str());
        if same_path_exec(&vc, &pc, windows) {
            assert(t[i as int].0 == key);
            proof {
                lemma_find_key_at(t, i as int);
            }
            return Some(i);
        }
        i = i + 1;
    }
    proof {
        lemma_find_key(t, key);
    }
    None
}

pub(crate) fn find_wd(v: &Vec<(i32, String)>, wd: i32) -> (r: Option<usize>)
    requires
        unique_keys(wd_table(v@)),
    ensures
        r matches Some(i) ==> find_key(wd_table(v@), wd) == Some(i as int),
        r is None ==> find_key(wd_table(v@), wd) is None,
{
    let ghost t = wd_table(v@);
    let mut i: usize = 0;
    while i < v.len()
        invariant
            i <= v@.len(),
            t == wd_table(v@),
            unique_keys(t),
            forall|k: int| 0 <= k < i ==> (#[trigger] t[k]).0 != wd,
        decreases v.len() - i,
    {
        if v[i].0 == wd {
            assert(t[i as int].0 == wd);
            proof {
                lemma_find_key_at(t, i as int);
            }
            return Some(i);
        }
        i = i + 1;
    }
    proof {
        lemma_find_key(t, wd);
    }
    None
}

pub(crate) fn put_path<V>(v: &mut Vec<(String, V)>, k: String, val: V, windows: bool)
    requires
        unique_keys(path_table(old(v)@, windows)),
    ensures
        path_table(final(v)@, windows) == put(
            path_table(old(v)@, windows),
            path_key(k@, windows),
            val,
        ),
{
    let ghost t = path_table(v@, windows);
    let ghost kv = path_key(k@, windows);
    match find_path(v, &k, windows) {
        Some(i) => {
            v.set(i, (k, val));
            assert(path_table(v@, windows) =~= t.update(i as int, (kv, val)));
        },
        None => {
            v.push((k, val));
            assert(path_table(v@, windows) =~= t.push((kv, val)));
        },
    }
}

pub(crate) fn put_wd(v: &mut Vec<(i32, String)>, k: i32, val: String)
    requires
        unique_keys(wd_table(old(v)@)),
    ensures
        wd_table(final(v)@) == put(wd_table(old(v)@), k, val@),
{
    let ghost t = wd_table(v@);
    let ghost vv = val@;
    match find_wd(v, k) {
        Some(i) => {
            v.set(i, (k, val));
            assert(wd_table(v@) =~= t.update(i as int, (k, vv)));
        },
        None => {
            v.push((k, val));
            assert(wd_table(v@) =~= t.push((k, vv)));
        },
    }
}

pub(crate) fn drop_path<V>(v: &mut Vec<(String, V)>, k: &String, windows: bool)
    requires
        unique_keys(path_table(old(v)@, windows)),
    ensures
        path_table(final(v)@, windows) == drop_key(
            path_table(old(v)@, windows),
            path_key(k@, windows),
        ),
{
    let ghost t = path_table(v@, windows);
    match find_path(v, k, windows) {
        Some(i) => {
            v.remove(i);
            assert(path_table(v@, windows) =~= t.remove(i as int));
        },
        None => {},
    }
}

pub(crate) fn drop_wd(v: &mut Vec<(i32, String)>, k: i32)
    requires
        unique_keys(wd_table(old(v)@)),
    ensures
        wd_table(final(v)@) == drop_key(wd_table(old(v)@), k),
{
    let ghost t = wd_table(v@);
    match find_wd(v, k) {
        Some(i) => {
            v.remove(i);
            assert(wd_table(v@) =~= t.remove(i as int));
        },
        None => {},
    }
}

} // verus!
