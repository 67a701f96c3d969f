//! The per-project save-folder table: project directory -> last folder used
//! by Save As. Each project occurs at most once; entries keep the order in
//! which their projects were first recorded.
use vstd::prelude::*;

verus! {

/// An ordered table of (project, folder) pairs.
pub open spec fn key_index(m: Seq<(Seq<char>, Seq<char>)>, key: Seq<char>) -> Option<int> {
    if exists|i: int| 0 <= i < m.len() && (#[trigger] m[i]).0 == key {
        Some(choose|i: int| 0 <= i < m.len() && (#[trigger] m[i]).0 == key)
    } else {
        None
    }
}

pub proof fn lemma_key_index(m: Seq<(Seq<char>, Seq<char>)>, key: Seq<char>)
    ensures
        key_index(m, key) matches Some(i) ==> 0 <= i < m.len() && m[i].0 == key,
        key_index(m, key) is None ==> forall|i: int| 0 <= i < m.len() ==> (#[trigger] m[i]).0 != key,
{
}

/// Two tables record the same folder for each project, whatever the order
/// of their entries: they are as long, and each pair of `a` is found in `b`.
pub open spec fn same_table(a: Seq<(Seq<char>, Seq<char>)>, b: Seq<(Seq<char>, Seq<char>)>) -> bool {
    a.len() == b.len() && forall|i: int| 0 <= i < a.len() ==> lookup(b, (#[trigger] a[i]).0) == Some(a[i].1)
}

/// No project occurs twice.
pub open spec fn keys_unique(m: Seq<(Seq<char>, Seq<char>)>) -> bool {
    forall|i: int, j: int| 0 <= i < j < m.len() ==> (#[trigger] m[i]).0 != (#[trigger] m[j]).0
}

/// The folder recorded for `key`.
pub open spec fn lookup(m: Seq<(Seq<char>, Seq<char>)>, key: Seq<char>) -> Option<Seq<char>> {
    match key_index(m, key) {
        Some(i) => Some(m[i].1),
        None => None,
    }
}

/// Records `value` for `key`: replaces the folder of a project already
/// present, else appends the pair.
pub open spec fn insert_pair(m: Seq<(Seq<char>, Seq<char>)>, key: Seq<char>, value: Seq<char>) -> Seq<
    (Seq<char>, Seq<char>),
> {
    match key_index(m, key) {
        Some(i) => m.update(i, (key, value)),
        None => m.push((key, value)),
    }
}

pub proof fn lemma_insert_pair_unique(m: Seq<(Seq<char>, Seq<char>)>, key: Seq<char>, value: Seq<char>)
    requires
        keys_unique(m),
    ensures
        keys_unique(insert_pair(m, key, value)),
        lookup(insert_pair(m, key, value), key) == Some(value),
        forall|k: Seq<char>| k != key ==> lookup(insert_pair(m, key, value), k) == lookup(m, k),
{
    let r = insert_pair(m, key, value);
    match key_index(m, key) {
        Some(i) => {
            assert forall|a: int, b: int| 0 <= a < b < r.len() implies (#[trigger] r[a]).0
                != (#[trigger] r[b]).0 by {
                assert(m[a].0 != m[b].0);
            }
            assert(r[i].0 == key);
            assert forall|k: Seq<char>| k != key implies lookup(r, k) == lookup(m, k) by {
                if key_index(m, k) is Some {
                    let j = key_index(m, k)->0;
                    assert(r[j].0 == k);
                } else {
                    assert forall|j: int| 0 <= j < r.len() implies (#[trigger] r[j]).0 != k by {
                        if j != i {
                            assert(m[j].0 != k);
                        }
                    }
                }
                if key_index(r, k) is Some {
                    let j = key_index(r, k)->0;
                    assert(m[j].0 == k);
                }
            }
        },
        None => {
            assert forall|a: int, b: int| 0 <= a < b < r.len() implies (#[trigger] r[a]).0
                != (#[trigger] r[b]).0 by {
                if b == m.len() {
                    assert(m[a].0 != key);
                } else {
                    assert(m[a].0 != m[b].0);
                }
            }
            assert(r[m.len() as int].0 == key);
            assert forall|k: Seq<char>| k != key implies lookup(r, k) == lookup(m, k) by {
                if key_index(m, k) is Some {
                    let j = key_index(m, k)->0;
                    assert(r[j].0 == k);
                }
                if key_index(r, k) is Some {
                    let j = key_index(r, k)->0;
                    assert(m[j].0 == k);
                }
            }
        },
    }
}

/// The per-project folder table.
#[derive(Debug)]
pub struct ProjectFolders {
    entries: Vec<(String, String)>,
}

/// The text of each pair.
pub open spec fn entries_view(v: Seq<(String, String)>) -> Seq<(Seq<char>, Seq<char>)> {
    Seq::new(v.len(), |i: int| (v[i].0@, v[i].1@))
}

impl View for ProjectFolders {
    type V = Seq<(Seq<char>, Seq<char>)>;

    closed spec fn view(&self) -> Seq<(Seq<char>, Seq<char>)> {
        entries_view(self.entries@)
    }
}

impl ProjectFolders {
    #[verifier::type_invariant]
    closed spec fn inv(self) -> bool {
        keys_unique(self@)
    }

    /// The table holds no project twice.
    pub fn unique(&self)
        ensures
            keys_unique(self@),
    {
        proof {
            use_type_invariant(self);
        }
    }

    /// An empty table.
    pub fn new() -> (r: Self)
        ensures
            r@ == Seq::<(Seq<char>, Seq<char>)>::empty(),
    {
        let r = ProjectFolders { entries: Vec::new() };
        assert(r@ =~= Seq::<(Seq<char>, Seq<char>)>::empty());
        r
    }

    /// The number of projects.
    pub fn len(&self) -> (n: usize)
        ensures
            n == self@.len(),
    {
        self.entries.len()
    }

    /// Whether the table is empty.
    pub fn is_empty(&self) -> (b: bool)
        ensures
            b == (self@.len() == 0),
    {
        self.entries.len() == 0
    }

    /// The project and folder at position `i`.
    pub fn entry(&self, i: usize) -> (r: (&String, &String))
        requires
            i < self@.len(),
        ensures
            r.0@ == self@[i as int].0,
            r.1@ == self@[i as int].1,
    {
        let e = &self.entries[i];
        (&e.0, &e.1)
    }

    fn index_of(&self, key: &String) -> (r: Option<usize>)
        ensures
            r matches Some(i) ==> key_index(self@, key@) == Some(i as int) && i < self@.len(),
            r is None ==> key_index(self@, key@) is None,
    {
        proof {
            use_type_invariant(self);
        }
        let mut i: usize = 0;
        while i < self.entries.len()
            invariant
                i <= self@.len(),
                self@.len() == self.entries@.len(),
                keys_unique(self@),
                forall|j: int| 0 <= j < i ==> (#[trigger] self@[j]).0 != key@,
            decreases self.entries.len() - i,
        {
            if self.entries[i].0 == *key {
                assert(self@[i as int].0 == key@);
                let ghost k = key_index(self@, key@);
                assert(k is Some);
                assert(k->0 == i) by {
                    let c = k->0;
                    if c != i {
                        if c < i {
                            assert(self@[c].0 != key@);
                        } else {
                            assert(self@[i as int].0 != self@[c].0);
                        }
                    }
                }
                return Some(i);
            }
            i += 1;
        }
        None
    }

    /// The folder recorded for `key`.
    pub fn get(&self, key: &str) -> (r: Option<&String>)
        ensures
            match r {
                Some(v) => lookup(self@, key@) == Some(v@),
                None => lookup(self@, key@) is None,
            },
    {
        let k = String::from_str(key);
        proof {
            lemma_key_index(self@, key@);
        }
        match self.index_of(&k) {
            Some(i) => {
                assert(k@ == key@);
                assert(key_index(self@, k@) == Some(i as int));
                assert(lookup(self@, key@) == Some(self@[i as int].1));
                assert(self@[i as int] == (self.entries@[i as int].0@, self.entries@[i as int].1@));
                let r = &self.entries[i].1;
                assert(r@ == self.entries@[i as int].1@);
                Some(r)
            },
            None => None,
        }
    }

    /// Records `value` for `key` (see `insert_pair`).
    pub fn insert(&mut self, key: String, value: String)
        ensures
            final(self)@ == insert_pair(old(self)@, key@, value@),
    {
        proof {
            use_type_invariant(&*self);
            lemma_insert_pair_unique(self@, key@, value@);
        }
        let ghost key_v = key@;
        let ghost value_v = value@;
        proof {
            lemma_key_index(self@, key_v);
        }
        match self.index_of(&key) {
            Some(i) => {
                let mut entries = Vec::new();
                std::mem::swap(&mut entries, &mut self.entries);
                entries.set(i, (key, value));
                assert(entries_view(entries@) =~= insert_pair(
                    old(self)@,
                    key_v,
                    value_v,
                ));
                self.entries = entries;
                assert(self@ =~= insert_pair(old(self)@, key_v, value_v));
            },
            None => {
                let mut entries = Vec::new();
                std::mem::swap(&mut entries, &mut self.entries);
                entries.push((key, value));
                assert(entries_view(entries@) =~= insert_pair(
                    old(self)@,
                    key_v,
                    value_v,
                ));
                self.entries = entries;
                assert(self@ =~= insert_pair(old(self)@, key_v, value_v));
            },
        }
    }
}

impl Clone for ProjectFolders {
    fn clone(&self) -> (r: Self)
        ensures
            r@ == self@,
    {
        proof {
            use_type_invariant(self);
        }
        let mut entries: Vec<(String, String)> = Vec::new();
        let mut i: usize = 0;
        while i < self.entries.len()
            invariant
                i <= self.entries@.len(),
                entries@.len() == i,
                keys_unique(self@),
                entries_view(entries@) =~= self@.take(i as int),
            decreases self.entries.len() - i,
        {
            let k = self.entries[i].0.clone();
            let v = self.entries[i].1.clone();
            assert(k@ == self.entries@[i as int].0@);
            assert(self@[i as int] == (self.entries@[i as int].0@, self.entries@[i as int].1@));
            let ghost prev = entries@;
            entries.push((k, v));
            assert(entries@ == prev.push((k, v)));
            assert(entries_view(entries@)[i as int] == (k@, v@));
            i += 1;
            assert(entries_view(entries@) =~= self@.take(i as int));
        }
        assert(self@.take(i as int) =~= self@);
        ProjectFolders { entries }
    }
}

/// Tables holding the same pairs in another order are equal.
pub proof fn lemma_same_table_any_order(
    a: Seq<(Seq<char>, Seq<char>)>,
    b: Seq<(Seq<char>, Seq<char>)>,
)
    requires
        keys_unique(a),
        keys_unique(b),
        a.to_multiset() == b.to_multiset(),
    ensures
        same_table(a, b),
{
    broadcast use vstd::seq_lib::group_to_multiset_ensures;

    assert(a.len() == b.len()) by {
        assert(a.to_multiset().len() == a.len());
        assert(b.to_multiset().len() == b.len());
    }
    assert forall|i: int| 0 <= i < a.len() implies lookup(b, (#[trigger] a[i]).0) == Some(a[i].1) by {
        assert(a.contains(a[i]));
        assert(a.to_multiset().count(a[i]) > 0);
        assert(b.to_multiset().count(a[i]) > 0);
        assert(b.contains(a[i]));
        let j = choose|j: int| 0 <= j < b.len() && b[j] == a[i];
        let k = key_index(b, a[i].0);
        assert(k is Some) by {
            assert(b[j].0 == a[i].0);
        }
        assert(k->0 == j) by {
            let c = k->0;
            if c != j {
                if c < j {
                    assert(b[c].0 != b[j].0);
                } else {
                    assert(b[j].0 != b[c].0);
                }
            }
        }
    }
}

impl PartialEq for ProjectFolders {
    /// Equal tables record the same folder for each project (see
    /// `same_table`); the order of the entries does not matter.
    fn eq(&self, other: &Self) -> (r: bool) {
        if self.entries.len() != other.entries.len() {
            return false;
        }
        let mut i: usize = 0;
        while i < self.entries.len()
            invariant
                i <= self@.len(),
                self@.len() == self.entries@.len(),
                self@.len() == other@.len(),
                forall|j: int| 0 <= j < i ==> lookup(other@, (#[trigger] self@[j]).0) == Some(self@[j].1),
            decreases self.entries.len() - i,
        {
            assert(self@[i as int] == (self.entries@[i as int].0@, self.entries@[i as int].1@));
            match other.get(self.entries[i].0.as_str()) {
                Some(v) => {
                    if *v != self.entries[i].1 {
                        return false;
                    }
                },
                None => {
                    return false;
                },
            }
            i += 1;
        }
        true
    }
}

impl vstd::std_specs::cmp::PartialEqSpecImpl for ProjectFolders {
    open spec fn obeys_eq_spec() -> bool {
        true
    }

    open spec fn eq_spec(&self, other: &Self) -> bool {
        same_table(self@, other@)
    }
}

} // verus!
