//! The bookkeeping of the Linux file watcher: which inotify watch stands
//! for which path, and which of the records read from inotify become
//! events. A modification is reported at most once per 100 ms for a path.
//! Making the system calls and decoding the raw records are left to the
//! caller.
use vstd::prelude::*;

use crate::tables::{
    drop_key, drop_path, drop_wd, find_path, find_wd, get, lemma_drop_key, lemma_put, path_table,
    put, put_path, put_wd, unique_keys, wd_table,
};
use crate::paths::{path_key, PathKey};
use crate::watch::{event_kind, event_path, ChangeKind, WatchEvent};

verus! {

// ---------------------------------------------------------------------------
// The watches and their events
// ---------------------------------------------------------------------------

/// One record read from inotify, decoded: the watch it is about, and
/// whether it reports a modification, or the file deleted or moved away.
#[derive(Debug, Clone, Copy, PartialEq, Eq, Structural)]
pub struct InotifyRecord {
    pub wd: i32,
    pub modified: bool,
    pub gone: bool,
}

/// How long after a reported modification another one of the same path is
/// not reported (ms).
pub open spec fn quiet_ms() -> int {
    100
}

/// Whether a record of path `p` at `now` falls within the quiet time after
/// the last modification reported for it.
pub open spec fn dominated(last: Seq<(PathKey, u64)>, p: Seq<char>, now: u64) -> bool {
    get(last, path_key(p, false)) matches Some(t) && now - t < quiet_ms()
}

/// What one record does: the new times of the last reported modifications,
/// and the events it reports.
pub open spec fn record_events(
    by_wd: Seq<(i32, Seq<char>)>,
    last: Seq<(PathKey, u64)>,
    rec: InotifyRecord,
    now: u64,
) -> (Seq<(PathKey, u64)>, Seq<(ChangeKind, Seq<char>)>) {
    match get(by_wd, rec.wd) {
        Some(p) => if dominated(last, p, now) {
            (last, Seq::empty())
        } else {
            (
                if rec.modified {
                    put(last, path_key(p, false), now)
                } else {
                    last
                },
                (if rec.modified {
                    seq![(ChangeKind::Modified, p)]
                } else {
                    Seq::empty()
                }) + (if rec.gone {
                    seq![(ChangeKind::Deleted, p)]
                } else {
                    Seq::empty()
                }),
            )
        },
        None => (last, Seq::empty()),
    }
}

/// What the records do, one after another.
pub open spec fn records_events(
    by_wd: Seq<(i32, Seq<char>)>,
    last: Seq<(PathKey, u64)>,
    recs: Seq<InotifyRecord>,
    now: u64,
) -> (Seq<(PathKey, u64)>, Seq<(ChangeKind, Seq<char>)>)
    decreases recs.len(),
{
    if recs.len() == 0 {
        (last, Seq::empty())
    } else {
        let before = records_events(by_wd, last, recs.drop_last(), now);
        let step = record_events(by_wd, before.0, recs.last(), now);
        (step.0, before.1 + step.1)
    }
}

/// A modification is reported at most once per quiet time: right after a
/// record that modified a watched path, another record of the same watch
/// reports nothing.
pub proof fn lemma_modification_quiet(
    by_wd: Seq<(i32, Seq<char>)>,
    last: Seq<(PathKey, u64)>,
    r1: InotifyRecord,
    r2: InotifyRecord,
    now: u64,
)
    requires
        unique_keys(last),
        r1.modified,
        r2.wd == r1.wd,
    ensures
        record_events(by_wd, record_events(by_wd, last, r1, now).0, r2, now).1.len() == 0,
{
    if get(by_wd, r1.wd) is Some {
        let p = get(by_wd, r1.wd)->0;
        if !dominated(last, p, now) {
            lemma_put(last, path_key(p, false), now);
        }
    }
}

/// The watches: descriptor to path (as text), path (by its key, see
/// `path_key`) to descriptor, and the time of the last modification
/// reported for each path (by its key).
pub struct InotifyView {
    pub by_wd: Seq<(i32, Seq<char>)>,
    pub by_path: Seq<(PathKey, i32)>,
    pub last_event: Seq<(PathKey, u64)>,
}

/// The inotify watches of the Linux file watcher. Paths are compared part
/// by part, with `/` as the only separator (see `same_path`).
pub struct InotifyWatches {
    by_wd: Vec<(i32, String)>,
    by_path: Vec<(String, i32)>,
    last_event: Vec<(String, u64)>,
}

impl View for InotifyWatches {
    type V = InotifyView;

    closed spec fn view(&self) -> InotifyView {
        InotifyView {
            by_wd: wd_table(self.by_wd@),
            by_path: path_table(self.by_path@, false),
            last_event: path_table(self.last_event@, false),
        }
    }
}

impl InotifyWatches {
    #[verifier::type_invariant]
    closed spec fn inv(self) -> bool {
        &&& unique_keys(wd_table(self.by_wd@))
        &&& unique_keys(path_table(self.by_path@, false))
        &&& unique_keys(path_table(self.last_event@, false))
    }

    /// No watch.
    pub fn new() -> (r: InotifyWatches)
        ensures
            r@.by_wd.len() == 0 && r@.by_path.len() == 0 && r@.last_event.len() == 0,
    {
        InotifyWatches { by_wd: Vec::new(), by_path: Vec::new(), last_event: Vec::new() }
    }

    /// Whether `path` is watched already.
    pub fn is_watched(&self, path: &String) -> (r: bool)
        ensures
            r == get(self@.by_path, path_key(path@, false)) is Some,
    {
        proof {
            use_type_invariant(self);
        }
        find_path(&self.by_path, path, false).is_some()
    }

    /// Records the watch `wd` that inotify gave for `path`.
    pub fn add(&mut self, path: String, wd: i32)
        ensures
            final(self)@.by_wd == put(old(self)@.by_wd, wd, path@),
            final(self)@.by_path == put(old(self)@.by_path, path_key(path@, false), wd),
            final(self)@.last_event == old(self)@.last_event,
    {
        proof {
            use_type_invariant(&*self);
            lemma_put(wd_table(self.by_wd@), wd, path@);
            lemma_put(path_table(self.by_path@, false), path_key(path@, false), wd);
        }
        let key = path.clone();
        let mut by_wd = Vec::new();
        std::mem::swap(&mut by_wd, &mut self.by_wd);
        put_wd(&mut by_wd, wd, path);
        self.by_wd = by_wd;
        let mut by_path = Vec::new();
        std::mem::swap(&mut by_path, &mut self.by_path);
        put_path(&mut by_path, key, wd, false);
        self.by_path = by_path;
    }

    /// Forgets the watch of `path` and returns its descriptor, for the
    /// caller to remove from inotify; nothing happens to a path not
    /// watched.
    pub fn remove(&mut self, path: &String) -> (r: Option<i32>)
        ensures
            r == get(old(self)@.by_path, path_key(path@, false)),
            match r {
                Some(wd) => {
                    &&& final(self)@.by_path == drop_key(old(self)@.by_path, path_key(path@, false))
                    &&& final(self)@.by_wd == drop_key(old(self)@.by_wd, wd)
                    &&& final(self)@.last_event == drop_key(
                        old(self)@.last_event,
                        path_key(path@, false),
                    )
                },
                None => final(self)@ == old(self)@,
            },
    {
        proof {
            use_type_invariant(&*self);
        }
        match find_path(&self.by_path, path, false) {
            Some(i) => {
                let wd = self.by_path[i].1;
                proof {
                    lemma_drop_key(path_table(self.by_path@, false), path_key(path@, false));
                    lemma_drop_key(wd_table(self.by_wd@), wd);
                    lemma_drop_key(path_table(self.last_event@, false), path_key(path@, false));
                }
                let mut by_path = Vec::new();
                std::mem::swap(&mut by_path, &mut self.by_path);
                drop_path(&mut by_path, path, false);
                self.by_path = by_path;
                let mut by_wd = Vec::new();
                std::mem::swap(&mut by_wd, &mut self.by_wd);
                drop_wd(&mut by_wd, wd);
                self.by_wd = by_wd;
                let mut last = Vec::new();
                std::mem::swap(&mut last, &mut self.last_event);
                drop_path(&mut last, path, false);
                self.last_event = last;
                Some(wd)
            },
            None => None,
        }
    }

    /// Turns the records read from inotify at `now` (ms) into events: a
    /// record of a watched path reports a modification, the file gone, or
    /// both, unless a modification of that path was reported less than
    /// 100 ms before.
    pub fn events(&mut self, records: &[InotifyRecord], now: u64) -> (r: Vec<WatchEvent>)
        ensures
            final(self)@.by_wd == old(self)@.by_wd,
            final(self)@.by_path == old(self)@.by_path,
            final(self)@.last_event == records_events(
                old(self)@.by_wd,
                old(self)@.last_event,
                records@,
                now,
            ).0,
            r@.len() == records_events(old(self)@.by_wd, old(self)@.last_event, records@, now).1.len(),
            forall|i: int|
                0 <= i < r@.len() ==> (event_kind(#[trigger] r@[i]), event_path(r@[i]))
                    == records_events(old(self)@.by_wd, old(self)@.last_event, records@, now).1[i],
    {
        proof {
            use_type_invariant(&*self);
        }
        let ghost by_wd = self@.by_wd;
        let ghost last0 = self@.last_event;
        let mut last = Vec::new();
        std::mem::swap(&mut last, &mut self.last_event);
        let mut out: Vec<WatchEvent> = Vec::new();
        let mut i: usize = 0;
        while i < records.len()
            invariant
                i <= records@.len(),
                by_wd == wd_table(self.by_wd@),
                unique_keys(by_wd),
                unique_keys(path_table(last@, false)),
                path_table(last@, false) == records_events(by_wd, last0, records@.take(i as int), now).0,
                out@.len() == records_events(by_wd, last0, records@.take(i as int), now).1.len(),
                forall|k: int|
                    0 <= k < out@.len() ==> (event_kind(#[trigger] out@[k]), event_path(out@[k]))
                        == records_events(by_wd, last0, records@.take(i as int), now).1[k],
            decreases records.len() - i,
        {
            let rec = records[i];
            let ghost prev = records_events(by_wd, last0, records@.take(i as int), now);
            let ghost out0 = out@;
            proof {
                assert(records@.take(i + 1).drop_last() =~= records@.take(i as int));
                assert(records@.take(i + 1).last() == rec);
            }
            let ghost step = record_events(by_wd, prev.0, rec, now);
            match find_wd(&self.by_wd, rec.wd) {
                Some(j) => {
                    let path = self.by_wd[j].1.clone();
                    assert(by_wd[j as int] == (self.by_wd@[j as int].0, self.by_wd@[j as int].1@));
                    assert(get(by_wd, rec.wd) == Some(path@));
                    let quiet = match find_path(&last, &path, false) {
                        Some(k) => {
                            assert(path_table(last@, false)[k as int] == (
                                path_key(last@[k as int].0@, false),
                                last@[k as int].1,
                            ));
                            let t = last[k].1;
                            now < t || now - t < 100
                        },
                        None => false,
                    };
                    assert(quiet == dominated(prev.0, path@, now));
                    if !quiet {
                        if rec.modified {
                            proof {
                                lemma_put(path_table(last@, false), path_key(path@, false), now);
                            }
                            put_path(&mut last, path.clone(), now, false);
                            out.push(WatchEvent::Modified(path.clone()));
                        }
                        if rec.gone {
                            out.push(WatchEvent::Deleted(path));
                        }
                    }
                },
                None => {},
            }
            proof {
                assert forall|k: int| 0 <= k < out@.len() implies (event_kind(#[trigger] out@[k]),
                    event_path(out@[k])) == (prev.1 + step.1)[k] by {
                    if k < out0.len() {
                        assert(out@[k] == out0[k]);
                    }
                }
            }
            i = i + 1;
        }
        assert(records@.take(i as int) =~= records@);
        self.last_event = last;
        out
    }
}

} // verus!
