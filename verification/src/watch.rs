//! Watching files for external changes by polling their modification time:
//! what each check reports, and the set of files watched that way.
//! Reading the file system and sleeping are left to the caller.
use vstd::prelude::*;

use crate::config::host_is_windows;
use crate::paths::{same_path, same_path_exec};
use crate::text::chars_of;

verus! {

/// Events that can be received from the file watcher
#[derive(Debug, Clone, PartialEq, Eq)]
pub enum WatchEvent {
    /// File was modified externally
    Modified(String),
    /// File was deleted
    Deleted(String),
}

/// What reading a file's metadata found.
#[derive(Debug, Clone, Copy, PartialEq, Eq, Structural)]
pub enum FileProbe {
    /// The file exists; its modification time (ns from the Unix epoch).
    Modified(i128),
    /// The file exists but has no modification time.
    NoTime,
    /// The file does not exist.
    NotFound,
    /// The metadata could not be read for another reason.
    Failed,
}

/// What a check reports, without the path.
#[derive(Debug, Clone, Copy, PartialEq, Eq, Structural)]
pub enum ChangeKind {
    Modified,
    Deleted,
}

/// A file watched by polling.
pub struct WatchedFile {
    pub path: String,
    pub last_modified: Option<i128>,
    pub initialized: bool,
}

/// The polling state of a file: its last modification time, and whether it
/// has been checked once.
pub struct PollState {
    pub last_modified: Option<i128>,
    pub initialized: bool,
}

/// One check of a file in state `s` that found `p`: the new state and what
/// is reported. The first check only records the time; a later one reports
/// a changed time, or the file gone when it had a time.
pub open spec fn poll_step(s: PollState, p: FileProbe) -> (PollState, Option<ChangeKind>) {
    match p {
        FileProbe::Modified(t) => (
            PollState { last_modified: Some(t), initialized: true },
            if s.last_modified != Some(t) && s.initialized {
                Some(ChangeKind::Modified)
            } else {
                None
            },
        ),
        FileProbe::NoTime => (s, None),
        FileProbe::NotFound => if s.last_modified is Some && s.initialized {
            (PollState { last_modified: None, initialized: s.initialized }, Some(ChangeKind::Deleted))
        } else {
            (PollState { last_modified: s.last_modified, initialized: true }, None)
        },
        FileProbe::Failed => (s, None),
    }
}

/// The kind of an event.
pub open spec fn event_kind(e: WatchEvent) -> ChangeKind {
    match e {
        WatchEvent::Modified(_) => ChangeKind::Modified,
        WatchEvent::Deleted(_) => ChangeKind::Deleted,
    }
}

/// The path an event is about.
pub open spec fn event_path(e: WatchEvent) -> Seq<char> {
    match e {
        WatchEvent::Modified(p) => p@,
        WatchEvent::Deleted(p) => p@,
    }
}

impl WatchedFile {
    pub open spec fn state(&self) -> PollState {
        PollState { last_modified: self.last_modified, initialized: self.initialized }
    }

    /// Starts watching `path`, whose modification time is `last_modified`.
    pub fn new(path: String, last_modified: Option<i128>) -> (r: WatchedFile)
        ensures
            r.path@ == path@,
            r.last_modified == last_modified,
            !r.initialized,
    {
        WatchedFile { path, last_modified, initialized: false }
    }

    /// Checks the file against what its metadata shows now.
    pub fn check_changed(&mut self, probe: FileProbe) -> (r: Option<WatchEvent>)
        ensures
            final(self).path@ == old(self).path@,
            final(self).state() == poll_step(old(self).state(), probe).0,
            match r {
                Some(e) => poll_step(old(self).state(), probe).1 == Some(event_kind(e))
                    && event_path(e) == old(self).path@,
                None => poll_step(old(self).state(), probe).1 is None,
            },
    {
        match probe {
            FileProbe::Modified(t) => {
                let changed = match self.last_modified {
                    Some(m) => m != t,
                    None => true,
                };
                let was_initialized = self.initialized;
                self.last_modified = Some(t);
                self.initialized = true;
                if changed && was_initialized {
                    return Some(WatchEvent::Modified(self.path.clone()));
                }
                None
            },
            FileProbe::NoTime => None,
            FileProbe::NotFound => {
                if self.last_modified.is_some() && self.initialized {
                    self.last_modified = None;
                    return Some(WatchEvent::Deleted(self.path.clone()));
                }
                self.initialized = true;
                None
            },
            FileProbe::Failed => None,
        }
    }
}

/// The first check of a file only records what it finds.
pub proof fn lemma_first_check_silent(t: Option<i128>, p: FileProbe)
    ensures
        poll_step(PollState { last_modified: t, initialized: false }, p).1 is None,
{
}

/// A file gone is reported at most once: of two checks in a row that find
/// it gone, at most one reports it.
pub proof fn lemma_deleted_once(s: PollState)
    ensures
        !(poll_step(s, FileProbe::NotFound).1 is Some && poll_step(
            poll_step(s, FileProbe::NotFound).0,
            FileProbe::NotFound,
        ).1 is Some),
{
}

/// A time seen twice is reported at most once.
pub proof fn lemma_same_time_silent(s: PollState, t: i128)
    ensures
        poll_step(poll_step(s, FileProbe::Modified(t)).0, FileProbe::Modified(t)).1 is None,
{
}

/// How long the watcher waits for native events in one round (ms): shorter
/// while some files are polled.
pub fn poll_timeout(polling_is_empty: bool) -> (r: u32)
    ensures
        r == (if polling_is_empty {
            200u32
        } else {
            50u32
        }),
{
    if polling_is_empty {
        200
    } else {
        50
    }
}

// ---------------------------------------------------------------------------
// The files watched by polling
// ---------------------------------------------------------------------------

/// A polled file: its path and polling state.
pub open spec fn polled(w: WatchedFile) -> (Seq<char>, PollState) {
    (w.path@, w.state())
}

/// The index of the file watched under a path that names the same path as
/// `path` (see `same_path`; `windows` selects the host's separators).
pub open spec fn polled_index(s: Seq<(Seq<char>, PollState)>, path: Seq<char>, windows: bool) -> Option<
    int,
> {
    if exists|i: int| 0 <= i < s.len() && same_path((#[trigger] s[i]).0, path, windows) {
        Some(choose|i: int| 0 <= i < s.len() && same_path((#[trigger] s[i]).0, path, windows))
    } else {
        None
    }
}

/// Starts polling `path` afresh: it replaces a file watched under the same
/// path, else it is added last.
pub open spec fn poll_watch(
    s: Seq<(Seq<char>, PollState)>,
    path: Seq<char>,
    t: Option<i128>,
    windows: bool,
) -> Seq<(Seq<char>, PollState)> {
    let e = (path, PollState { last_modified: t, initialized: false });
    match polled_index(s, path, windows) {
        Some(i) => s.update(i, e),
        None => s.push(e),
    }
}

/// Stops polling `path`.
pub open spec fn poll_unwatch(s: Seq<(Seq<char>, PollState)>, path: Seq<char>, windows: bool) -> Seq<
    (Seq<char>, PollState),
> {
    match polled_index(s, path, windows) {
        Some(i) => s.remove(i),
        None => s,
    }
}

/// Checks each polled file against its probe: the new states, and the
/// reported changes with their paths, in order.
pub open spec fn poll_all(s: Seq<(Seq<char>, PollState)>, probes: Seq<FileProbe>) -> (
    Seq<(Seq<char>, PollState)>,
    Seq<(ChangeKind, Seq<char>)>,
)
    decreases s.len(),
{
    if s.len() == 0 {
        (Seq::empty(), Seq::empty())
    } else {
        let r = poll_all(s.drop_last(), probes);
        let step = poll_step(s.last().1, probes[s.len() - 1]);
        (
            r.0.push((s.last().0, step.0)),
            match step.1 {
                Some(k) => r.1.push((k, s.last().0)),
                None => r.1,
            },
        )
    }
}

/// The files watched by polling, each path once; paths are compared with
/// the separators of a Windows host (`windows`) or of another host.
pub struct PollingFiles {
    files: Vec<WatchedFile>,
    windows: bool,
}

impl View for PollingFiles {
    type V = Seq<(Seq<char>, PollState)>;

    closed spec fn view(&self) -> Seq<(Seq<char>, PollState)> {
        Seq::new(self.files@.len(), |i: int| polled(self.files@[i]))
    }
}

/// No two paths name the same path.
pub open spec fn paths_unique(s: Seq<(Seq<char>, PollState)>, windows: bool) -> bool {
    forall|i: int, j: int|
        0 <= i < j < s.len() ==> !same_path((#[trigger] s[i]).0, (#[trigger] s[j]).0, windows)
}

impl PollingFiles {
    #[verifier::type_invariant]
    closed spec fn inv(self) -> bool {
        paths_unique(self@, self.windows)
    }

    /// Whether paths are compared with the separators of a Windows host.
    pub closed spec fn windows(&self) -> bool {
        self.windows
    }

    /// No file polled; paths compared with the rules of the host.
    pub fn new() -> (r: PollingFiles)
        ensures
            r@.len() == 0,
    {
        PollingFiles::new_for(host_is_windows())
    }

    /// No file polled; paths compared with the separators of a Windows host
    /// (`windows`) or of another host.
    pub fn new_for(windows: bool) -> (r: PollingFiles)
        ensures
            r@.len() == 0,
            r.windows() == windows,
    {
        let r = PollingFiles { files: Vec::new(), windows };
        assert(r@ =~= Seq::<(Seq<char>, PollState)>::empty());
        r
    }

    /// Whether no file is polled.
    pub fn is_empty(&self) -> (r: bool)
        ensures
            r == (self@.len() == 0),
    {
        self.files.len() == 0
    }

    /// The paths polled, in order.
    pub fn paths(&self) -> (r: Vec<String>)
        ensures
            r@.len() == self@.len(),
            forall|i: int| 0 <= i < r@.len() ==> #[trigger] r@[i]@ == self@[i].0,
    {
        let mut out: Vec<String> = Vec::new();
        let mut i: usize = 0;
        while i < self.files.len()
            invariant
                i <= self.files@.len(),
                out@.len() == i,
                forall|k: int| 0 <= k < i ==> #[trigger] out@[k]@ == self@[k].0,
            decreases self.files.len() - i,
        {
            out.push(self.files[i].path.clone());
            i = i + 1;
        }
        out
    }

    fn find(&self, path: &String) -> (r: Option<usize>)
        ensures
            match r {
                Some(i) => i < self@.len() && same_path(self@[i as int].0, path@, self.windows()),
                None => polled_index(self@, path@, self.windows()) is None,
            },
    {
        let key = chars_of(path.as_str());
        let mut i: usize = 0;
        while i < self.files.len()
            invariant
                i <= self.files@.len(),
                key@ == path@,
                forall|k: int| 0 <= k < i ==> !same_path((#[trigger] self@[k]).0, path@, self.windows()),
            decreases self.files.len() - i,
        {
            let pc = chars_of(self.files[i].path.as_str());
            if same_path_exec(&pc, &key, self.windows) {
                return Some(i);
            }
            i = i + 1;
        }
        None
    }

    /// Starts polling `path`, whose modification time is `last_modified`.
    pub fn watch(&mut self, path: String, last_modified: Option<i128>)
        ensures
            final(self)@ == poll_watch(old(self)@, path@, last_modified, old(self).windows()),
            final(self).windows() == old(self).windows(),
    {
        proof {
            use_type_invariant(&*self);
        }
        let ghost before = self@;
        let found = self.find(&path);
        let w = WatchedFile::new(path, last_modified);
        let ghost e = polled(w);
        match found {
            Some(i) => {
                proof {
                    assert(polled_index(before, e.0, self.windows) == Some(i as int));
                }
                let mut files = Vec::new();
                std::mem::swap(&mut files, &mut self.files);
                files.set(i, w);
                proof {
                    let after = Seq::new(files@.len(), |k: int| polled(files@[k]));
                    assert(after =~= before.update(i as int, e));
                    assert(paths_unique(after, self.windows)) by {
                        assert forall|a: int, b: int| 0 <= a < b < after.len() implies
                        !same_path((#[trigger] after[a]).0, (#[trigger] after[b]).0, self.windows) by {
                            assert(!same_path(before[a].0, before[b].0, self.windows));
                        }
                    }
                }
                self.files = files;
            },
            None => {
                let mut files = Vec::new();
                std::mem::swap(&mut files, &mut self.files);
                files.push(w);
                proof {
                    let after = Seq::new(files@.len(), |k: int| polled(files@[k]));
                    assert(after =~= before.push(e));
                    assert(paths_unique(after, self.windows)) by {
                        assert forall|a: int, b: int| 0 <= a < b < after.len() implies
                        !same_path((#[trigger] after[a]).0, (#[trigger] after[b]).0, self.windows) by {
                            if b == before.len() {
                                assert(!same_path(before[a].0, e.0, self.windows));
                            } else {
                                assert(!same_path(before[a].0, before[b].0, self.windows));
                            }
                        }
                    }
                }
                self.files = files;
            },
        }
    }

    /// Stops polling `path`.
    pub fn unwatch(&mut self, path: &String)
        ensures
            final(self)@ == poll_unwatch(old(self)@, path@, old(self).windows()),
            final(self).windows() == old(self).windows(),
    {
        proof {
            use_type_invariant(&*self);
        }
        let ghost before = self@;
        match self.find(path) {
            Some(i) => {
                proof {
                    assert(polled_index(before, path@, self.windows) == Some(i as int));
                }
                let mut files = Vec::new();
                std::mem::swap(&mut files, &mut self.files);
                files.remove(i);
                proof {
                    let after = Seq::new(files@.len(), |k: int| polled(files@[k]));
                    assert(after =~= before.remove(i as int));
                    assert(paths_unique(after, self.windows)) by {
                        assert forall|a: int, b: int| 0 <= a < b < after.len() implies
                        !same_path((#[trigger] after[a]).0, (#[trigger] after[b]).0, self.windows) by {
                            let a2 = if a < i {
                                a
                            } else {
                                a + 1
                            };
                            let b2 = if b < i {
                                b
                            } else {
                                b + 1
                            };
                            assert(after[a] == before[a2]);
                            assert(after[b] == before[b2]);
                            assert(!same_path(before[a2].0, before[b2].0, self.windows));
                        }
                    }
                }
                self.files = files;
            },
            None => {},
        }
    }

    /// Checks every polled file against its probe, in order, and returns the
    /// changes they report.
    pub fn check_all(&mut self, probes: &[FileProbe]) -> (r: Vec<WatchEvent>)
        requires
            probes@.len() == old(self)@.len(),
        ensures
            final(self)@ == poll_all(old(self)@, probes@).0,
            final(self).windows() == old(self).windows(),
            r@.len() == poll_all(old(self)@, probes@).1.len(),
            forall|i: int|
                0 <= i < r@.len() ==> (event_kind(#[trigger] r@[i]), event_path(r@[i])) == poll_all(
                    old(self)@,
                    probes@,
                ).1[i],
    {
        proof {
            use_type_invariant(&*self);
        }
        let ghost before = self@;
        let mut files = Vec::new();
        std::mem::swap(&mut files, &mut self.files);
        let mut out: Vec<WatchEvent> = Vec::new();
        let mut done: Vec<WatchedFile> = Vec::new();
        let mut i: usize = 0;
        let n = files.len();
        while i < n
            invariant
                n == files@.len() == before.len(),
                probes@.len() == before.len(),
                i <= n,
                forall|k: int| 0 <= k < n ==> #[trigger] polled(files@[k]) == before[k],
                Seq::new(done@.len(), |k: int| polled(done@[k])) == poll_all(
                    before.take(i as int),
                    probes@,
                ).0,
                out@.len() == poll_all(before.take(i as int), probes@).1.len(),
                forall|k: int|
                    0 <= k < out@.len() ==> (event_kind(#[trigger] out@[k]), event_path(out@[k]))
                        == poll_all(before.take(i as int), probes@).1[k],
            decreases n - i,
        {
            let mut w = WatchedFile {
                path: files[i].path.clone(),
                last_modified: files[i].last_modified,
                initialized: files[i].initialized,
            };
            let ghost pd = poll_all(before.take(i as int), probes@);
            proof {
                assert(polled(w) == before[i as int]);
            }
            let ev = w.check_changed(probes[i]);
            let ghost step = poll_step(before[i as int].1, probes@[i as int]);
            proof {
                assert(before.take(i + 1).drop_last() =~= before.take(i as int));
                assert(before.take(i + 1).last() == before[i as int]);
                assert(polled(w) == (before[i as int].0, step.0));
                assert(poll_all(before.take(i + 1), probes@).0 == pd.0.push(polled(w)));
            }
            match ev {
                Some(e) => {
                    out.push(e);
                },
                None => {},
            }
            done.push(w);
            proof {
                assert(Seq::new(done@.len(), |k: int| polled(done@[k])) =~= pd.0.push(
                    polled(done@[done@.len() - 1]),
                ));
            }
            i = i + 1;
        }
        proof {
            assert(before.take(n as int) =~= before);
            lemma_poll_all_paths(before, probes@);
            let after = Seq::new(done@.len(), |k: int| polled(done@[k]));
            assert(after == poll_all(before, probes@).0);
            assert(paths_unique(after, self.windows)) by {
                assert forall|a: int, b: int| 0 <= a < b < after.len() implies
                !same_path((#[trigger] after[a]).0, (#[trigger] after[b]).0, self.windows) by {
                    assert(!same_path(before[a].0, before[b].0, self.windows));
                }
            }
        }
        self.files = done;
        out
    }
}

/// Checking keeps the paths where they were.
pub proof fn lemma_poll_all_paths(s: Seq<(Seq<char>, PollState)>, probes: Seq<FileProbe>)
    ensures
        poll_all(s, probes).0.len() == s.len(),
        forall|i: int| 0 <= i < s.len() ==> (#[trigger] poll_all(s, probes).0[i]).0 == s[i].0,
    decreases s.len(),
{
    if s.len() > 0 {
        lemma_poll_all_paths(s.drop_last(), probes);
    }
}

} // verus!
