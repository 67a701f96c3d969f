//! The open documents, most recently active first. A document carries its
//! text buffer and file identity as opaque values; the list decides which
//! document is active, finds open files and names new ones.
use vstd::prelude::*;

use crate::config::{host_is_windows, recent_view, RecentFile};
use crate::goto::Point;
use crate::logging::{file_close_text, log_file_close};
use crate::paths::{same_path, same_path_exec};
use crate::text::{chars_of, decimal, push_decimal, push_str, string_of};
use crate::watch::FileProbe;

verus! {

/// The name of the `n`-th new document.
pub open spec fn untitled_name(n: nat) -> Seq<char> {
    "Untitled-"@ + decimal(n) + ".txt"@
}

/// The largest of the counters, 0 when there are none.
pub open spec fn max_counter(c: Seq<usize>) -> nat
    decreases c.len(),
{
    if c.len() == 0 {
        0
    } else {
        let m = max_counter(c.drop_last());
        if c.last() > m {
            c.last() as nat
        } else {
            m
        }
    }
}

/// An open document: its buffer, where it lives on disk, and how it is
/// named.
pub struct Document<B, I> {
    pub buffer: B,
    pub path: Option<String>,
    pub dir: Option<String>,
    pub filename: String,
    pub file_id: Option<I>,
    pub new_file_counter: usize,
    /// The file's modification time when it was last read or saved (ns
    /// from the Unix epoch).
    pub last_modified: Option<i128>,
}

/// Whether the file behind `d` changed since it was read or saved, given
/// what its metadata shows now: only a file with a path, a recorded time
/// and a readable time different from it has changed.
pub open spec fn changed_on_disk<B, I>(d: Document<B, I>, probe: FileProbe) -> bool {
    &&& d.path is Some
    &&& d.last_modified matches Some(t)
    &&& probe matches FileProbe::Modified(now)
    &&& now != t
}

impl<B, I> Document<B, I> {
    /// Checks whether the file has been modified on disk since it was last
    /// read or saved; `probe` is what its metadata shows now. No path, no
    /// recorded time, a missing file or an unreadable time all count as
    /// unchanged.
    pub fn has_file_changed_on_disk(&self, probe: FileProbe) -> (r: bool)
        ensures
            r == changed_on_disk(*self, probe),
    {
        match (&self.path, self.last_modified) {
            (Some(_), Some(last)) => match probe {
                FileProbe::Modified(now) => now != last,
                _ => false,
            },
            _ => false,
        }
    }
}

/// The ruler column of a document named `filename`: 72 for a Git commit
/// message, none (0) otherwise.
pub open spec fn file_mode_ruler(filename: Seq<char>) -> int {
    if filename == "COMMIT_EDITMSG"@ {
        72
    } else {
        0
    }
}

/// The ruler column that the document's name calls for (see
/// `file_mode_ruler`).
pub fn ruler_for_filename(filename: &str) -> (r: isize)
    ensures
        r == file_mode_ruler(filename@),
{
    let name = String::from_str(filename);
    let commit = String::from_str("COMMIT_EDITMSG");
    if name == commit {
        72
    } else {
        0
    }
}

/// The untitled-document counters of `docs`, in order.
pub open spec fn counters<B, I>(docs: Seq<Document<B, I>>) -> Seq<usize> {
    docs.map_values(|d: Document<B, I>| d.new_file_counter)
}

/// Whether the document lives at `path`: its path names the same path (see
/// `same_path`; `windows` selects the host's separators).
pub open spec fn has_path<B, I>(d: Document<B, I>, path: Seq<char>, windows: bool) -> bool {
    d.path matches Some(p) && same_path(p@, path, windows)
}

/// Whether some document of `docs` has the path `path`.
pub open spec fn path_open<B, I>(docs: Seq<Document<B, I>>, path: Seq<char>, windows: bool) -> bool {
    exists|i: int| 0 <= i < docs.len() && has_path(#[trigger] docs[i], path, windows)
}

/// `docs` with the document at `i` moved to the front.
pub open spec fn to_front<B, I>(docs: Seq<Document<B, I>>, i: int) -> Seq<Document<B, I>> {
    seq![docs[i]] + docs.remove(i)
}

/// A document nobody has touched: no file behind it and no edits.
pub open spec fn pristine<B, I>(d: Document<B, I>, dirty: bool) -> bool {
    d.path is None && d.file_id is None && !dirty
}

/// The open documents; the first is the active one. Paths are compared
/// with the separators of a Windows host (`windows`) or of another host.
pub struct DocumentManager<B, I> {
    list: Vec<Document<B, I>>,
    windows: bool,
}

impl<B, I> View for DocumentManager<B, I> {
    type V = Seq<Document<B, I>>;

    closed spec fn view(&self) -> Seq<Document<B, I>> {
        self.list@
    }
}

impl<B, I> DocumentManager<B, I> {
    /// Whether paths are compared with the separators of a Windows host.
    pub closed spec fn windows(&self) -> bool {
        self.windows
    }

    /// No open document; paths compared with the rules of the host.
    pub fn new() -> (r: Self)
        ensures
            r@.len() == 0,
    {
        DocumentManager { list: Vec::new(), windows: host_is_windows() }
    }

    /// No open document; paths compared with the separators of a Windows
    /// host (`windows`) or of another host.
    pub fn new_for(windows: bool) -> (r: Self)
        ensures
            r@.len() == 0,
            r.windows() == windows,
    {
        DocumentManager { list: Vec::new(), windows }
    }

    /// The number of open documents.
    pub fn len(&self) -> (r: usize)
        ensures
            r == self@.len(),
    {
        self.list.len()
    }

    /// The active document.
    pub fn active(&self) -> (r: Option<&Document<B, I>>)
        ensures
            self@.len() == 0 <==> r is None,
            r matches Some(d) ==> *d == self@[0],
    {
        if self.list.len() == 0 {
            None
        } else {
            Some(&self.list[0])
        }
    }

    /// The active document, to change it.
    pub fn active_mut(&mut self) -> (r: Option<&mut Document<B, I>>)
        ensures
            final(self).windows() == old(self).windows(),
            old(self)@.len() == 0 <==> r is None,
            r is None ==> final(self)@ == old(self)@,
            r matches Some(d) ==> *d == old(self)@[0] && final(self)@ == old(self)@.update(
                0,
                *final(d),
            ),
    {
        if self.list.len() == 0 {
            None
        } else {
            Some(&mut self.list[0])
        }
    }

    /// Makes the first document that `func` picks the active one; returns
    /// whether one was picked. The others keep their order.
    pub fn update_active<F: Fn(&Document<B, I>) -> bool>(&mut self, func: F) -> (r: bool)
        requires
            forall|d: &Document<B, I>| func.requires((d,)),
        ensures
            final(self).windows() == old(self).windows(),
            r ==> exists|i: int|
                0 <= i < old(self)@.len() && call_ensures(func, (&old(self)@[i],), true) && (
                forall|j: int|
                    0 <= j < i ==> call_ensures(func, (&#[trigger] old(self)@[j],), false))
                    && final(self)@ == to_front(old(self)@, i),
            !r ==> final(self)@ == old(self)@ && forall|j: int|
                0 <= j < old(self)@.len() ==> call_ensures(
                    func,
                    (&#[trigger] old(self)@[j],),
                    false,
                ),
    {
        let mut i: usize = 0;
        while i < self.list.len()
            invariant
                i <= self.list@.len(),
                self@ == old(self)@,
                self.windows() == old(self).windows(),
                forall|d: &Document<B, I>| func.requires((d,)),
                forall|j: int| 0 <= j < i ==> call_ensures(func, (&#[trigger] self@[j],), false),
            decreases self.list.len() - i,
        {
            let picked = func(&self.list[i]);
            if picked {
                let ghost before = self@;
                let d = self.list.remove(i);
                self.list.insert(0, d);
                assert(self@ =~= to_front(before, i as int));
                return true;
            }
            i = i + 1;
        }
        false
    }

    /// Closes the active document.
    pub fn remove_active(&mut self)
        ensures
            final(self).windows() == old(self).windows(),
            final(self)@ == if old(self)@.len() == 0 {
                old(self)@
            } else {
                old(self)@.drop_first()
            },
    {
        if self.list.len() > 0 {
            self.list.remove(0);
        }
    }

    /// Closes the active document and returns the log message of the
    /// close (`discarded`: its unsaved changes are thrown away), or `None`
    /// when no document is open.
    pub fn close_active(&mut self, discarded: bool) -> (r: Option<String>)
        ensures
            final(self).windows() == old(self).windows(),
            old(self)@.len() == 0 ==> r is None && final(self)@ == old(self)@,
            old(self)@.len() > 0 ==> final(self)@ == old(self)@.drop_first() && (r matches Some(m)
                && m@ == file_close_text(old(self)@[0].filename@, discarded)),
    {
        if self.list.len() == 0 {
            return None;
        }
        let message = log_file_close(self.list[0].filename.as_str(), discarded);
        self.list.remove(0);
        Some(message)
    }

    /// Whether a file path is currently open in any document: some
    /// document's path names the same path (see `same_path`).
    pub fn is_path_open(&self, path: &str) -> (r: bool)
        ensures
            r == path_open(self@, path@, self.windows()),
    {
        let key = chars_of(path);
        let mut i: usize = 0;
        while i < self.list.len()
            invariant
                i <= self.list@.len(),
                key@ == path@,
                forall|j: int| 0 <= j < i ==> !has_path(#[trigger] self@[j], path@, self.windows()),
            decreases self.list.len() - i,
        {
            match &self.list[i].path {
                Some(p) => {
                    let pc = chars_of(p.as_str());
                    if same_path_exec(&pc, &key, self.windows) {
                        assert(has_path(self@[i as int], path@, self.windows()));
                        return true;
                    }
                },
                None => {},
            }
            i = i + 1;
        }
        false
    }

    /// The largest untitled-document counter, 0 when no document has one.
    pub fn max_new_file_counter(&self) -> (r: usize)
        ensures
            r == max_counter(counters(self@)),
    {
        let ghost c = counters(self@);
        let mut m: usize = 0;
        let mut i: usize = 0;
        while i < self.list.len()
            invariant
                i <= self.list@.len(),
                c == counters(self@),
                c.len() == self.list@.len(),
                m == max_counter(c.take(i as int)),
            decreases self.list.len() - i,
        {
            proof {
                assert(c.take(i + 1).drop_last() =~= c.take(i as int));
                assert(c.take(i + 1).last() == self@[i as int].new_file_counter);
            }
            if self.list[i].new_file_counter > m {
                m = self.list[i].new_file_counter;
            }
            i = i + 1;
        }
        assert(c.take(i as int) =~= c);
        m
    }

    /// Names `doc` as the next untitled document: one past the largest
    /// counter of the open documents.
    pub fn gen_untitled_name(&self, doc: &mut Document<B, I>)
        requires
            max_counter(counters(self@)) < usize::MAX,
        ensures
            final(doc).new_file_counter == max_counter(counters(self@)) + 1,
            final(doc).filename@ == untitled_name(final(doc).new_file_counter as nat),
            final(doc).buffer == old(doc).buffer,
            final(doc).path == old(doc).path,
            final(doc).dir == old(doc).dir,
            final(doc).file_id == old(doc).file_id,
            final(doc).last_modified == old(doc).last_modified,
    {
        let k = self.max_new_file_counter() + 1;
        let mut out: Vec<char> = Vec::new();
        push_str(&mut out, "Untitled-");
        push_decimal(&mut out, k as u64);
        push_str(&mut out, ".txt");
        assert(out@ =~= untitled_name(k as nat));
        doc.filename = string_of(out.as_slice());
        doc.new_file_counter = k;
    }

    /// Opens a new untitled document with `buffer` and makes it active.
    pub fn add_untitled(&mut self, buffer: B) -> (r: &mut Document<B, I>)
        requires
            max_counter(counters(old(self)@)) < usize::MAX,
        ensures
            final(self).windows() == old(self).windows(),
            r.buffer == buffer,
            r.path is None && r.dir is None && r.file_id is None && r.last_modified is None,
            r.new_file_counter == max_counter(counters(old(self)@)) + 1,
            r.filename@ == untitled_name(r.new_file_counter as nat),
            final(self)@ == seq![*final(r)] + old(self)@,
    {
        let mut doc = Document {
            buffer,
            path: None,
            dir: None,
            filename: String::new(),
            file_id: None,
            new_file_counter: 0,
            last_modified: None,
        };
        self.gen_untitled_name(&mut doc);
        self.list.insert(0, doc);
        &mut self.list[0]
    }

    /// Makes `doc`, just read from a file, the active document. A pristine
    /// untitled active document (`active_dirty` says whether its buffer has
    /// edits) is replaced by it.
    pub fn add_opened(&mut self, doc: Document<B, I>, active_dirty: bool) -> (r: &mut Document<
        B,
        I,
    >)
        ensures
            final(self).windows() == old(self).windows(),
            *r == doc,
            final(self)@ == seq![*final(r)] + (if old(self)@.len() > 0 && pristine(
                old(self)@[0],
                active_dirty,
            ) {
                old(self)@.drop_first()
            } else {
                old(self)@
            }),
    {
        if self.list.len() > 0 && self.list[0].path.is_none() && self.list[0].file_id.is_none()
            && !active_dirty {
            self.list.remove(0);
        }
        self.list.insert(0, doc);
        &mut self.list[0]
    }
}

// ---------------------------------------------------------------------------
// The recent files offered by "Go to file"
// ---------------------------------------------------------------------------

/// The paths among the first `n` recent files that are offered: those that
/// exist on disk (`exists`, one flag per file) and are not open, in the
/// order of the list.
pub open spec fn offered_recent<B, I>(
    recent: Seq<(Seq<char>, u64)>,
    exists: Seq<bool>,
    docs: Seq<Document<B, I>>,
    windows: bool,
    n: int,
) -> Seq<Seq<char>>
    decreases n,
{
    if n <= 0 {
        Seq::empty()
    } else {
        let before = offered_recent(recent, exists, docs, windows, n - 1);
        if exists[n - 1] && !path_open(docs, recent[n - 1].0, windows) {
            before.push(recent[n - 1].0)
        } else {
            before
        }
    }
}

/// Every recent file offered exists on disk and is not open.
pub proof fn lemma_offered_recent_closed<B, I>(
    recent: Seq<(Seq<char>, u64)>,
    exists: Seq<bool>,
    docs: Seq<Document<B, I>>,
    windows: bool,
    n: int,
)
    requires
        0 <= n <= recent.len(),
        exists.len() == recent.len(),
    ensures
        forall|k: int|
            0 <= k < offered_recent(recent, exists, docs, windows, n).len() ==> {
                let p = #[trigger] offered_recent(recent, exists, docs, windows, n)[k];
                &&& !path_open(docs, p, windows)
                &&& exists|i: int| 0 <= i < n && recent[i].0 == p && exists[i]
            },
    decreases n,
{
    if n > 0 {
        lemma_offered_recent_closed(recent, exists, docs, windows, n - 1);
        let before = offered_recent(recent, exists, docs, windows, n - 1);
        let o = offered_recent(recent, exists, docs, windows, n);
        assert forall|k: int| 0 <= k < o.len() implies {
            let p = #[trigger] o[k];
            &&& !path_open(docs, p, windows)
            &&& exists|i: int| 0 <= i < n && recent[i].0 == p && exists[i]
        } by {
            if k < before.len() {
                assert(o[k] == before[k]);
                let p = before[k];
                let i = choose|i: int| 0 <= i < n - 1 && recent[i].0 == p && exists[i];
                assert(0 <= i < n && recent[i].0 == p && exists[i]);
            } else {
                assert(o[k] == recent[n - 1].0);
                assert(0 <= n - 1 < n && recent[n - 1].0 == o[k] && exists[n - 1]);
            }
        }
    }
}

impl<B, I> DocumentManager<B, I> {
    /// The recent files to offer after the open documents: each one that
    /// exists on disk (`exists[i]` for `recent[i]`) and is not open.
    pub fn recent_to_show(&self, recent: &[RecentFile], exists: &[bool]) -> (r: Vec<String>)
        requires
            exists@.len() == recent@.len(),
        ensures
            r@.len() == offered_recent(recent_view(recent@), exists@, self@, self.windows(), recent@.len() as int).len(),
            forall|i: int|
                0 <= i < r@.len() ==> #[trigger] r@[i]@ == offered_recent(
                    recent_view(recent@),
                    exists@,
                    self@,
                    self.windows(),
                    recent@.len() as int,
                )[i],
    {
        let ghost rv = recent_view(recent@);
        let mut out: Vec<String> = Vec::new();
        let mut i: usize = 0;
        while i < recent.len()
            invariant
                i <= recent@.len(),
                exists@.len() == recent@.len(),
                rv == recent_view(recent@),
                out@.len() == offered_recent(rv, exists@, self@, self.windows(), i as int).len(),
                forall|k: int|
                    0 <= k < out@.len() ==> #[trigger] out@[k]@ == offered_recent(
                        rv,
                        exists@,
                        self@,
                        self.windows(),
                        i as int,
                    )[k],
            decreases recent.len() - i,
        {
            let ghost before = out@;
            assert(rv[i as int].0 == recent@[i as int].path@);
            if exists[i] && !self.is_path_open(recent[i].path.as_str()) {
                out.push(recent[i].path.clone());
            }
            i = i + 1;
            proof {
                let o = offered_recent(rv, exists@, self@, self.windows(), i as int);
                assert forall|k: int| 0 <= k < out@.len() implies #[trigger] out@[k]@ == o[k] by {
                    if k < before.len() {
                        assert(out@[k] == before[k]);
                    }
                }
            }
        }
        out
    }
}

// ---------------------------------------------------------------------------
// Where the cursor goes when a document is read again from disk
// ---------------------------------------------------------------------------

/// How far line `l` is from line `y`.
pub open spec fn line_distance(l: isize, y: isize) -> int {
    if l >= y {
        l - y
    } else {
        y - l
    }
}

/// The first of the lines `ls` (at least one) closest to line `y`.
pub open spec fn closest_line(ls: Seq<isize>, y: isize) -> isize
    decreases ls.len(),
{
    if ls.len() <= 1 {
        ls[0]
    } else {
        let c = closest_line(ls.drop_last(), y);
        if line_distance(ls.last(), y) < line_distance(c, y) {
            ls.last()
        } else {
            c
        }
    }
}

/// The line the cursor goes to after the text is read again: the line that
/// still holds the text of the cursor's old line (the closest one when
/// several do), or else the old line number, kept within the new text.
pub open spec fn reread_line(
    saved_y: isize,
    saved_line: Option<Seq<char>>,
    matches: Seq<isize>,
    new_line_count: isize,
) -> int {
    if saved_line matches Some(l) && l.len() > 0 && matches.len() > 0 {
        closest_line(matches, saved_y) as int
    } else {
        let top = new_line_count - 1;
        let y = if saved_y < top {
            saved_y as int
        } else {
            top
        };
        if y > 0 {
            y
        } else {
            0
        }
    }
}

/// Where the cursor goes after a document is read again from disk:
/// `saved_pos` is where it was, `saved_line` the text of its line then,
/// `matches` the lines of the new text equal to that text (looked for only
/// when it is not empty), and `new_line_count` the new number of lines.
/// The column stays; moving there clamps it.
pub fn reread_cursor_target(
    saved_pos: Point,
    saved_line: Option<&str>,
    matches: &[isize],
    new_line_count: isize,
) -> (r: Point)
    requires
        new_line_count > isize::MIN,
        (saved_line matches Some(l) && l@.len() > 0 && matches@.len() > 1) ==> forall|i: int|
            0 <= i < matches@.len() ==> isize::MIN < #[trigger] matches@[i] - saved_pos.y
                <= isize::MAX,
    ensures
        r.x == saved_pos.x,
        r.y == reread_line(
            saved_pos.y,
            match saved_line {
                Some(l) => Some(l@),
                None => None,
            },
            matches@,
            new_line_count,
        ),
{
    let search = match saved_line {
        Some(l) => !l.is_empty(),
        None => false,
    };
    if search && matches.len() == 1 {
        Point { x: saved_pos.x, y: matches[0] }
    } else if search && matches.len() > 1 {
        let y = saved_pos.y;
        let mut best = matches[0];
        let mut best_dist: isize = if best >= y {
            best - y
        } else {
            y - best
        };
        let mut i: usize = 1;
        while i < matches.len()
            invariant
                1 <= i <= matches@.len(),
                y == saved_pos.y,
                forall|k: int|
                    0 <= k < matches@.len() ==> isize::MIN < #[trigger] matches@[k] - saved_pos.y
                        <= isize::MAX,
                best == closest_line(matches@.take(i as int), y),
                best_dist == line_distance(best, y),
            decreases matches.len() - i,
        {
            proof {
                assert(matches@.take(i + 1).drop_last() =~= matches@.take(i as int));
                assert(matches@.take(i + 1).last() == matches@[i as int]);
                assert(isize::MIN < matches@[i as int] - saved_pos.y);
            }
            let m = matches[i];
            let d: isize = if m >= y {
                m - y
            } else {
                y - m
            };
            if d < best_dist {
                best = m;
                best_dist = d;
            }
            i = i + 1;
        }
        assert(matches@.take(i as int) =~= matches@);
        Point { x: saved_pos.x, y: best }
    } else {
        let top = new_line_count - 1;
        let clamped = if saved_pos.y < top {
            saved_pos.y
        } else {
            top
        };
        Point { x: saved_pos.x, y: if clamped > 0 {
            clamped
        } else {
            0
        } }
    }
}

/// The line picked among several matches is one of them, and no match is
/// closer to the old line.
pub proof fn lemma_closest_line_is_closest(ls: Seq<isize>, y: isize)
    requires
        ls.len() > 0,
    ensures
        ls.contains(closest_line(ls, y)),
        forall|i: int|
            0 <= i < ls.len() ==> line_distance(closest_line(ls, y), y) <= line_distance(
                #[trigger] ls[i],
                y,
            ),
    decreases ls.len(),
{
    if ls.len() > 1 {
        let p = ls.drop_last();
        lemma_closest_line_is_closest(p, y);
        let c = closest_line(p, y);
        let k = choose|k: int| 0 <= k < p.len() && p[k] == c;
        assert(ls[k] == c);
        assert forall|i: int| 0 <= i < ls.len() implies line_distance(closest_line(ls, y), y)
            <= line_distance(#[trigger] ls[i], y) by {
            if i < p.len() {
                assert(ls[i] == p[i]);
            }
        }
        assert(ls[ls.len() - 1] == ls.last());
    } else {
        assert(ls[0] == closest_line(ls, y));
    }
}

/// After reading again, a cursor that found no line to follow stays within
/// the new text: on a line from 0 to the last one.
pub proof fn lemma_reread_line_in_text(
    saved_y: isize,
    saved_line: Option<Seq<char>>,
    new_line_count: isize,
)
    requires
        new_line_count >= 1,
    ensures
        0 <= reread_line(saved_y, saved_line, Seq::empty(), new_line_count) < new_line_count,
{
}

/// With no line to follow (no saved text, an empty one, or no line of the
/// new text equal to it), the cursor keeps its old line number, moved up to
/// the last line of the new text when it is past it, and to line 0 when it
/// is before the first: whatever the saved text was.
pub proof fn lemma_reread_without_match_keeps_line(
    saved_y: isize,
    saved_line: Option<Seq<char>>,
    matches: Seq<isize>,
    new_line_count: isize,
)
    requires
        matches.len() == 0 || !(saved_line matches Some(l) && l.len() > 0),
    ensures
        0 <= saved_y < new_line_count ==> reread_line(saved_y, saved_line, matches, new_line_count)
            == saved_y,
        saved_y >= new_line_count >= 1 ==> reread_line(
            saved_y,
            saved_line,
            matches,
            new_line_count,
        ) == new_line_count - 1,
        (saved_y < 0 || new_line_count < 1) ==> reread_line(
            saved_y,
            saved_line,
            matches,
            new_line_count,
        ) == 0,
{
}

/// For the recent file at index `k`: its path when it exists and is not
/// open.
pub open spec fn offer_at<B, I>(
    recent: Seq<(Seq<char>, u64)>,
    exists: Seq<bool>,
    docs: Seq<Document<B, I>>,
    windows: bool,
) -> spec_fn(int) -> Option<Seq<char>> {
    |k: int|
        if exists[k] && !path_open(docs, recent[k].0, windows) {
            Some(recent[k].0)
        } else {
            None
        }
}

/// The offered paths are the recent files, in the order of the list, kept
/// when they exist and are not open: vstd's `filter_map` over the indices.
pub proof fn lemma_offered_recent_is_filter<B, I>(
    recent: Seq<(Seq<char>, u64)>,
    exists: Seq<bool>,
    docs: Seq<Document<B, I>>,
    windows: bool,
    n: int,
)
    requires
        0 <= n <= recent.len(),
        exists.len() == recent.len(),
    ensures
        offered_recent(recent, exists, docs, windows, n) == Seq::new(n as nat, |k: int| k).filter_map(
            offer_at(recent, exists, docs, windows),
        ),
    decreases n,
{
    let ix = Seq::new(n as nat, |k: int| k);
    if n > 0 {
        lemma_offered_recent_is_filter(recent, exists, docs, windows, n - 1);
        assert(ix.drop_last() =~= Seq::new((n - 1) as nat, |k: int| k));
        assert(ix.last() == n - 1);
        let f = offer_at(recent, exists, docs, windows);
        let before = Seq::new((n - 1) as nat, |k: int| k).filter_map(f);
        assert(ix.filter_map(f) =~= offered_recent(recent, exists, docs, windows, n)) by {
            if exists[n - 1] && !path_open(docs, recent[n - 1].0, windows) {
                assert(before + seq![recent[n - 1].0] =~= before.push(recent[n - 1].0));
            }
        }
    } else {
        assert(ix =~= Seq::<int>::empty());
    }
}

/// Every recent file that exists and is not open is offered, the first of
/// the list included.
pub proof fn lemma_offered_recent_complete<B, I>(
    recent: Seq<(Seq<char>, u64)>,
    exists: Seq<bool>,
    docs: Seq<Document<B, I>>,
    windows: bool,
    n: int,
)
    requires
        0 <= n <= recent.len(),
        exists.len() == recent.len(),
    ensures
        forall|k: int|
            0 <= k < n && exists[k] && !path_open(docs, recent[k].0, windows) ==> offered_recent(
                recent,
                exists,
                docs,
                windows,
                n,
            ).contains(#[trigger] recent[k].0),
        offered_recent(recent, exists, docs, windows, n).len() <= n,
    decreases n,
{
    if n > 0 {
        lemma_offered_recent_complete(recent, exists, docs, windows, n - 1);
        let before = offered_recent(recent, exists, docs, windows, n - 1);
        let o = offered_recent(recent, exists, docs, windows, n);
        assert forall|k: int|
            0 <= k < n && exists[k] && !path_open(docs, recent[k].0, windows) implies o.contains(
            #[trigger] recent[k].0,
        ) by {
            if k < n - 1 {
                let j = choose|j: int| 0 <= j < before.len() && before[j] == recent[k].0;
                assert(o[j] == before[j]);
            } else {
                assert(o[o.len() - 1] == recent[k].0);
            }
        }
    }
}

/// Making a document active keeps the same documents: the list is a
/// permutation of the old one, with the picked document first.
pub proof fn lemma_to_front_keeps_documents<B, I>(docs: Seq<Document<B, I>>, i: int)
    requires
        0 <= i < docs.len(),
    ensures
        to_front(docs, i).len() == docs.len(),
        to_front(docs, i)[0] == docs[i],
        to_front(docs, i).to_multiset() == docs.to_multiset(),
{
    broadcast use vstd::seq_lib::group_to_multiset_ensures;

    let a = docs.subrange(0, i);
    let z = docs.subrange(i + 1, docs.len() as int);
    let x = seq![docs[i]];
    assert(docs =~= a + x + z);
    assert(docs.remove(i) =~= a + z);
    vstd::seq_lib::lemma_multiset_commutative(a + x, z);
    vstd::seq_lib::lemma_multiset_commutative(a, x);
    vstd::seq_lib::lemma_multiset_commutative(x, a + z);
    vstd::seq_lib::lemma_multiset_commutative(a, z);
}

/// A document just opened from `path` is found open afterwards, whether or
/// not it replaced the active one.
pub proof fn lemma_opened_is_open<B, I>(
    docs: Seq<Document<B, I>>,
    doc: Document<B, I>,
    active_dirty: bool,
    path: Seq<char>,
    windows: bool,
)
    requires
        has_path(doc, path, windows),
    ensures
        path_open(
            seq![doc] + (if docs.len() > 0 && pristine(docs[0], active_dirty) {
                docs.drop_first()
            } else {
                docs
            }),
            path,
            windows,
        ),
{
    let rest = if docs.len() > 0 && pristine(docs[0], active_dirty) {
        docs.drop_first()
    } else {
        docs
    };
    assert((seq![doc] + rest)[0] == doc);
}

/// Closing the active document closes nothing else: every other open path
/// stays open.
pub proof fn lemma_remove_active_keeps_others<B, I>(
    docs: Seq<Document<B, I>>,
    path: Seq<char>,
    windows: bool,
)
    requires
        docs.len() > 0,
        path_open(docs, path, windows),
        !has_path(docs[0], path, windows),
    ensures
        path_open(docs.drop_first(), path, windows),
{
    let i = choose|i: int| 0 <= i < docs.len() && has_path(#[trigger] docs[i], path, windows);
    assert(docs.drop_first()[i - 1] == docs[i]);
}

} // verus!
