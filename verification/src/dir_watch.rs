//! The bookkeeping of the Windows file watcher, which watches directories:
//! the files watched in one directory, by name, with the modification time
//! last seen, and what a change notification for a name reports. Reading
//! the notifications and the files' metadata is left to the caller.
use vstd::prelude::*;

use crate::tables::{
    drop_key, drop_path, find_path, get, lemma_drop_key, lemma_put, path_table, put, put_path,
    unique_keys,
};
use crate::paths::{path_key, PathKey};
use crate::watch::{FileProbe, WatchEvent};

verus! {

/// What a change notification for a watched file reports, given what the
/// file's metadata shows now: a new modification time is a modification
/// (and becomes the time last seen); a file whose metadata cannot be read
/// is gone; a file without a readable time reports nothing.
pub open spec fn notified(last: i128, probe: FileProbe) -> (i128, Option<bool>) {
    match probe {
        FileProbe::Modified(t) => if t != last {
            (t, Some(true))
        } else {
            (last, None)
        },
        FileProbe::NoTime => (last, None),
        _ => (last, Some(false)),
    }
}

/// A modification time is reported once: a second notification that finds
/// the same time reports nothing.
pub proof fn lemma_time_reported_once(last: i128, t: i128)
    ensures
        notified(notified(last, FileProbe::Modified(t)).0, FileProbe::Modified(t)).1 is None,
{
}

/// The files watched in one directory: file name to (full path,
/// modification time last seen). Names are compared as Windows paths (see
/// `same_path`).
pub struct DirectoryFiles {
    files: Vec<(String, (String, i128))>,
}

impl View for DirectoryFiles {
    type V = Seq<(PathKey, (String, i128))>;

    closed spec fn view(&self) -> Seq<(PathKey, (String, i128))> {
        path_table(self.files@, true)
    }
}

impl DirectoryFiles {
    #[verifier::type_invariant]
    closed spec fn inv(self) -> bool {
        unique_keys(path_table(self.files@, true))
    }

    /// No file watched.
    pub fn new() -> (r: DirectoryFiles)
        ensures
            r@.len() == 0,
    {
        DirectoryFiles { files: Vec::new() }
    }

    /// Watches the file `name` at `full_path`, whose modification time is
    /// `mtime` (the Unix epoch when it has none).
    pub fn watch(&mut self, name: String, full_path: String, mtime: i128)
        ensures
            final(self)@ == put(old(self)@, path_key(name@, true), (full_path, mtime)),
    {
        proof {
            use_type_invariant(&*self);
            lemma_put(self@, path_key(name@, true), (full_path, mtime));
        }
        let mut files = Vec::new();
        std::mem::swap(&mut files, &mut self.files);
        put_path(&mut files, name, (full_path, mtime), true);
        self.files = files;
    }

    /// Stops watching the file `name`.
    pub fn unwatch(&mut self, name: &String)
        ensures
            final(self)@ == drop_key(old(self)@, path_key(name@, true)),
    {
        proof {
            use_type_invariant(&*self);
            lemma_drop_key(self@, path_key(name@, true));
        }
        let mut files = Vec::new();
        std::mem::swap(&mut files, &mut self.files);
        drop_path(&mut files, name, true);
        self.files = files;
    }

    /// The full path of the watched file `name`, to read its metadata.
    pub fn full_path(&self, name: &String) -> (r: Option<String>)
        ensures
            match get(self@, path_key(name@, true)) {
                Some(e) => r == Some(e.0),
                None => r is None,
            },
    {
        proof {
            use_type_invariant(self);
        }
        match find_path(&self.files, name, true) {
            Some(i) => {
                assert(self@[i as int] == (path_key(self.files@[i as int].0@, true), self.files@[i as int].1));
                Some(self.files[i].1.0.clone())
            },
            None => None,
        }
    }

    /// Handles a change notification for the file `name`, whose metadata
    /// shows `probe` now (see `notified`); names not watched are ignored.
    pub fn process_notification(&mut self, name: &String, probe: FileProbe) -> (r: Option<
        WatchEvent,
    >)
        ensures
            match get(old(self)@, path_key(name@, true)) {
                Some(e) => {
                    let (t, ev) = notified(e.1, probe);
                    &&& final(self)@ == put(old(self)@, path_key(name@, true), (e.0, t))
                    &&& match ev {
                        Some(true) => r matches Some(WatchEvent::Modified(p)) && p@ == e.0@,
                        Some(false) => r matches Some(WatchEvent::Deleted(p)) && p@ == e.0@,
                        None => r is None,
                    }
                },
                None => final(self)@ == old(self)@ && r is None,
            },
    {
        proof {
            use_type_invariant(&*self);
        }
        match find_path(&self.files, name, true) {
            Some(i) => {
                let ghost before = self@;
                assert(before[i as int] == (path_key(self.files@[i as int].0@, true), self.files@[i as int].1));
                let full = self.files[i].1.0.clone();
                let last = self.files[i].1.1;
                let (t, ev) = match probe {
                    FileProbe::Modified(t) => if t != last {
                        (t, Some(WatchEvent::Modified(full.clone())))
                    } else {
                        (last, None)
                    },
                    FileProbe::NoTime => (last, None),
                    _ => (last, Some(WatchEvent::Deleted(full.clone()))),
                };
                proof {
                    lemma_put(before, path_key(name@, true), (full, t));
                }
                let mut files = Vec::new();
                std::mem::swap(&mut files, &mut self.files);
                put_path(&mut files, name.clone(), (full, t), true);
                self.files = files;
                ev
            },
            None => None,
        }
    }
}

} // verus!
