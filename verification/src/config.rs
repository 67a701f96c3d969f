//! The editor's global configuration (`~/.ogedit/state.json`): its values,
//! the reader and writer of the file, and the per-project folder and
//! recent-file lists kept in it.
use vstd::prelude::*;

use crate::config_parse::{
    default_view, entry_opened_at, entry_path, field_project_folders, field_recent_files,
    find_close, field_bool_exec, field_u8_exec, folder_entries, lookup_field_exec, parse_config,
    recent_entries, strip_comments_exec, trim_exec, ConfigView,
};
use crate::config_write::{
    bool_text, config_json, json_part_a, json_part_b, json_part_c, json_part_d, folder_entry,
    folder_lines, folders_json, recent_entry, recent_json, recent_lines,
};
use crate::clock::unix_time;
use crate::paths::{same_path, same_path_exec};
use crate::folders::{insert_pair, lookup, ProjectFolders};
use crate::recent::{
    lemma_first_older_is, lemma_path_index, newest_first, path_index, sort_desc, touch,
};
use crate::json_string::{escape_into, lemma_read_string_bounds, parse_json_string_content};
use crate::text::{
    chars_of, digits_end_exec, find_char_exec, lemma_digits_end_bounds,
    lemma_find_char_from_bounds, lemma_skip_ws_bounds, push_decimal, push_str, skip_ws_exec,
    string_of, subseq,
};

verus! {

/// A recently opened file and when it was opened.
#[derive(Debug, Clone, PartialEq)]
pub struct RecentFile {
    /// Absolute path to the file
    pub path: String,
    /// Unix timestamp (seconds) when the file was last opened
    pub opened_at: u64,
}

impl View for RecentFile {
    type V = (Seq<char>, u64);

    open spec fn view(&self) -> (Seq<char>, u64) {
        (self.path@, self.opened_at)
    }
}

/// The text of each recent file.
pub open spec fn recent_view(v: Seq<RecentFile>) -> Seq<(Seq<char>, u64)> {
    Seq::new(v.len(), |i: int| v[i]@)
}

/// Global application configuration.
#[derive(Debug, Clone, PartialEq)]
pub struct Config {
    /// Whether word wrap is enabled by default for new documents
    pub word_wrap: bool,
    /// Whether to use tabs (true) or spaces (false) for indentation
    pub indent_with_tabs: bool,
    /// Tab width / number of spaces for indentation (1-8)
    pub tab_size: u8,
    /// Whether to use CRLF (true) or LF (false) for newlines
    pub newline_crlf: bool,
    /// Whether to show line numbers in the left margin
    pub line_numbers: bool,
    /// Whether to highlight the current line
    pub line_highlight: bool,
    /// Whether to insert a final newline when saving
    pub insert_final_newline: bool,
    /// Ruler column position (0 = disabled, typically 80 or 120 for code)
    pub ruler_column: u8,
    /// Per-project last-used save folder (project_cwd -> last_save_dir)
    pub project_folders: ProjectFolders,
    /// Recently opened files (max 100), sorted by opened_at descending
    pub recent_files: Vec<RecentFile>,
}

impl View for Config {
    type V = ConfigView;

    open spec fn view(&self) -> ConfigView {
        ConfigView {
            word_wrap: self.word_wrap,
            indent_with_tabs: self.indent_with_tabs,
            tab_size: self.tab_size,
            newline_crlf: self.newline_crlf,
            line_numbers: self.line_numbers,
            line_highlight: self.line_highlight,
            insert_final_newline: self.insert_final_newline,
            ruler_column: self.ruler_column,
            project_folders: self.project_folders@,
            recent_files: recent_view(self.recent_files@),
        }
    }
}

/// The view of an optional configuration.
pub open spec fn opt_view(c: Option<Config>) -> Option<ConfigView> {
    match c {
        Some(c) => Some(c@),
        None => None,
    }
}

/// `std::path::MAIN_SEPARATOR`, the path separator of the host: `\` on
/// Windows, `/` elsewhere. Nothing is claimed of the value.
#[verifier::external_body]
fn main_separator() -> char {
    std::path::MAIN_SEPARATOR
}

/// Whether the editor runs on Windows, where the path separator is `\`.
pub(crate) fn host_is_windows() -> bool {
    main_separator() == '\\'
}

impl Config {
    /// The defaults for a host that is (`windows`) or is not Windows: CRLF
    /// and no final newline on Windows, LF and a final newline elsewhere.
    pub fn default_for(windows: bool) -> (r: Config)
        ensures
            r@ == default_view(windows),
    {
        let r = Config {
            word_wrap: false,
            indent_with_tabs: false,
            tab_size: 4,
            newline_crlf: windows,
            line_numbers: true,
            line_highlight: true,
            insert_final_newline: !windows,
            ruler_column: 0,
            project_folders: ProjectFolders::new(),
            recent_files: Vec::new(),
        };
        assert(recent_view(r.recent_files@) =~= Seq::<(Seq<char>, u64)>::empty());
        r
    }
}

impl Default for Config {
    fn default() -> (r: Config)
        ensures
            r@ == default_view(r.newline_crlf),
    {
        Config::default_for(host_is_windows())
    }
}

// ---------------------------------------------------------------------------
// Reading
// ---------------------------------------------------------------------------

/// The `project_folders` pairs of an object body (see `folder_entries`).
fn folder_entries_exec(o: &[char]) -> (r: ProjectFolders)
    ensures
        r@ == folder_entries(o@, 0, Seq::empty()),
{
    let mut m = ProjectFolders::new();
    let mut i: usize = 0;
    let n = o.len();
    loop
        invariant
            i <= n == o@.len(),
            folder_entries(o@, 0, Seq::empty()) == folder_entries(o@, i as int, m@),
        decreases n - i,
    {
        proof {
            lemma_find_char_from_bounds(o@, '"', i as int);
        }
        let q = match find_char_exec(o, '"', i) {
            None => return m,
            Some(q) => q,
        };
        let (key, kend) = parse_json_string_content(o, q + 1);
        proof {
            lemma_read_string_bounds(o@, q + 1);
        }
        let ke = if kend > 0 {
            q + 1 + kend
        } else if q + 1 < n && o[q + 1] == '"' {
            q + 1
        } else {
            return m;
        };
        let r = skip_ws_exec(o, ke + 1);
        proof {
            lemma_skip_ws_bounds(o@, ke + 1);
        }
        if !(r < n && o[r] == ':') {
            return m;
        }
        let r2 = skip_ws_exec(o, r + 1);
        proof {
            lemma_skip_ws_bounds(o@, r + 1);
        }
        if !(r2 < n && o[r2] == '"') {
            return m;
        }
        let (val, vend) = parse_json_string_content(o, r2 + 1);
        proof {
            lemma_read_string_bounds(o@, r2 + 1);
        }
        let ve = if vend > 0 {
            r2 + 1 + vend
        } else if r2 + 1 < n && o[r2 + 1] == '"' {
            r2 + 1
        } else {
            return m;
        };
        let ks = string_of(key.as_slice());
        let vs = string_of(val.as_slice());
        m.insert(ks, vs);
        i = ve + 1;
    }
}

/// The `project_folders` table of a file body (see `field_project_folders`).
fn field_project_folders_exec(c: &[char]) -> (r: ProjectFolders)
    ensures
        r@ == field_project_folders(c@),
{
    let key = chars_of("\"project_folders\"");
    match lookup_field_exec(c, key.as_slice()) {
        Some(Some(v)) => {
            if v < c.len() && c[v] == '{' {
                match find_close(c, v, false) {
                    Some(e) => {
                        let o = subseq(c, v + 1, e);
                        folder_entries_exec(o.as_slice())
                    },
                    None => ProjectFolders::new(),
                }
            } else {
                ProjectFolders::new()
            }
        },
        _ => ProjectFolders::new(),
    }
}

/// The `path` of a recent-file object body (see `entry_path`).
fn entry_path_exec(obj: &[char]) -> (r: Option<Vec<char>>)
    ensures
        match r {
            Some(p) => entry_path(obj@) == Some(p@),
            None => entry_path(obj@) is None,
        },
{
    let key = chars_of("\"path\"");
    match lookup_field_exec(obj, key.as_slice()) {
        Some(Some(v)) => {
            if v < obj.len() && obj[v] == '"' {
                let (p, _) = parse_json_string_content(obj, v + 1);
                Some(p)
            } else {
                None
            }
        },
        _ => None,
    }
}

/// The `opened_at` of a recent-file object body (see `entry_opened_at`).
fn entry_opened_at_exec(obj: &[char]) -> (r: Option<u64>)
    ensures
        r == entry_opened_at(obj@),
{
    let key = chars_of("\"opened_at\"");
    match lookup_field_exec(obj, key.as_slice()) {
        Some(Some(v)) => {
            let e = digits_end_exec(obj, v);
            proof {
                lemma_digits_end_bounds(obj@, v as int);
            }
            if e == v {
                return None;
            }
            crate::config_parse::digits_u64(obj, v, e)
        },
        _ => None,
    }
}

/// The recent files of an array body (see `recent_entries`).
fn recent_entries_exec(a: &[char]) -> (r: Vec<RecentFile>)
    ensures
        recent_view(r@) == recent_entries(a@, 0, Seq::empty()),
{
    let mut acc: Vec<RecentFile> = Vec::new();
    let mut i: usize = 0;
    let n = a.len();
    assert(recent_view(acc@) =~= Seq::<(Seq<char>, u64)>::empty());
    loop
        invariant
            i <= n == a@.len(),
            recent_entries(a@, 0, Seq::empty()) == recent_entries(a@, i as int, recent_view(acc@)),
        decreases n - i,
    {
        proof {
            lemma_find_char_from_bounds(a@, '{', i as int);
        }
        let s0 = match find_char_exec(a, '{', i) {
            None => return acc,
            Some(s0) => s0,
        };
        let e = match find_close(a, s0, false) {
            None => return acc,
            Some(e) => e,
        };
        let obj = subseq(a, s0 + 1, e);
        let ghost before = recent_view(acc@);
        match (entry_path_exec(obj.as_slice()), entry_opened_at_exec(obj.as_slice())) {
            (Some(p), Some(t)) => {
                let f = RecentFile { path: string_of(p.as_slice()), opened_at: t };
                acc.push(f);
                assert(recent_view(acc@) =~= before.push((p@, t)));
            },
            _ => {},
        }
        i = e + 1;
    }
}

/// The `recent_files` list of a file body (see `field_recent_files`).
fn field_recent_files_exec(c: &[char]) -> (r: Vec<RecentFile>)
    ensures
        recent_view(r@) == field_recent_files(c@),
{
    let key = chars_of("\"recent_files\"");
    let empty: Vec<RecentFile> = Vec::new();
    assert(recent_view(empty@) =~= Seq::<(Seq<char>, u64)>::empty());
    match lookup_field_exec(c, key.as_slice()) {
        Some(Some(v)) => {
            if v < c.len() && c[v] == '[' {
                match find_close(c, v, true) {
                    Some(e) => {
                        let o = subseq(c, v + 1, e);
                        recent_entries_exec(o.as_slice())
                    },
                    None => empty,
                }
            } else {
                empty
            }
        },
        _ => empty,
    }
}

impl Config {
    /// Parses the configuration file `json` with `defaults` for the fields
    /// it does not name (see `parse_config`).
    pub fn parse_with_defaults(json: &[char], defaults: &Config) -> (r: Option<Config>)
        ensures
            opt_view(r) == parse_config(json@, defaults@),
    {
        let stripped = strip_comments_exec(json);
        let j = trim_exec(stripped.as_slice());
        let n = j.len();
        if !(n > 0 && j[0] == '{' && j[n - 1] == '}') {
            return None;
        }
        let inner = subseq(j.as_slice(), 1, n - 1);
        let c = trim_exec(inner.as_slice());
        if c.len() == 0 {
            return Some(defaults.clone_config());
        }
        match find_char_exec(c.as_slice(), '"', 0) {
            None => {
                proof {
                    lemma_find_char_from_bounds(c@, '"', 0);
                }
                return None;
            },
            Some(_) => {
                proof {
                    lemma_find_char_from_bounds(c@, '"', 0);
                }
            },
        }
        let c = c.as_slice();
        let ww = field_bool_exec(c, "\"word_wrap\"", defaults.word_wrap);
        let iwt = field_bool_exec(c, "\"indent_with_tabs\"", defaults.indent_with_tabs);
        let crlf = field_bool_exec(c, "\"newline_crlf\"", defaults.newline_crlf);
        let ts = field_u8_exec(c, "\"tab_size\"", defaults.tab_size, 1, 8);
        let ln = field_bool_exec(c, "\"line_numbers\"", defaults.line_numbers);
        let lh = field_bool_exec(c, "\"line_highlight\"", defaults.line_highlight);
        let ifn = field_bool_exec(c, "\"insert_final_newline\"", defaults.insert_final_newline);
        let rc = field_u8_exec(c, "\"ruler_column\"", defaults.ruler_column, 0, 255);
        match (ww, iwt, crlf, ts, ln, lh, ifn, rc) {
            (Some(ww), Some(iwt), Some(crlf), Some(ts), Some(ln), Some(lh), Some(ifn), Some(rc)) => {
                let project_folders = field_project_folders_exec(c);
                let recent_files = keep_newest(&field_recent_files_exec(c));
                Some(
                    Config {
                        word_wrap: ww,
                        indent_with_tabs: iwt,
                        tab_size: ts,
                        newline_crlf: crlf,
                        line_numbers: ln,
                        line_highlight: lh,
                        insert_final_newline: ifn,
                        ruler_column: rc,
                        project_folders,
                        recent_files,
                    },
                )
            },
            _ => None,
        }
    }

    /// Parses the configuration file `json` (see `parse_config`); fields
    /// it does not name take their defaults on this host.
    pub fn parse(json: &str) -> (r: Option<Config>)
        ensures
            opt_view(r) == parse_config(json@, default_view(false)) || opt_view(r) == parse_config(
                json@,
                default_view(true),
            ),
    {
        let defaults = Config::default();
        let chars = chars_of(json);
        Config::parse_with_defaults(chars.as_slice(), &defaults)
    }

    /// A copy of this configuration.
    fn clone_config(&self) -> (r: Config)
        ensures
            r@ == self@,
    {
        let mut files: Vec<RecentFile> = Vec::new();
        let mut i: usize = 0;
        while i < self.recent_files.len()
            invariant
                i <= self.recent_files@.len(),
                files@.len() == i,
                recent_view(files@) =~= recent_view(self.recent_files@).take(i as int),
            decreases self.recent_files.len() - i,
        {
            let f = &self.recent_files[i];
            files.push(RecentFile { path: f.path.clone(), opened_at: f.opened_at });
            i += 1;
            assert(recent_view(files@) =~= recent_view(self.recent_files@).take(i as int));
        }
        assert(recent_view(self.recent_files@).take(i as int) =~= recent_view(self.recent_files@));
        Config {
            word_wrap: self.word_wrap,
            indent_with_tabs: self.indent_with_tabs,
            tab_size: self.tab_size,
            newline_crlf: self.newline_crlf,
            line_numbers: self.line_numbers,
            line_highlight: self.line_highlight,
            insert_final_newline: self.insert_final_newline,
            ruler_column: self.ruler_column,
            project_folders: self.project_folders.clone(),
            recent_files: files,
        }
    }
}

// ---------------------------------------------------------------------------
// Project folders and recent files
// ---------------------------------------------------------------------------

/// `files` with the first entry that names the same path as `path` (see
/// `same_path`) stamped `now`, its text kept, or with a new entry for `path`
/// at the end.
fn touch_exec(files: &mut Vec<RecentFile>, path: &str, now: u64, windows: bool)
    ensures
        recent_view(final(files)@) == touch(recent_view(old(files)@), path@, now, windows),
{
    let pc = chars_of(path);
    let ghost s = recent_view(files@);
    proof {
        lemma_path_index(s, path@, windows);
    }
    let mut i: usize = 0;
    while i < files.len()
        invariant
            i <= files@.len(),
            s == recent_view(files@),
            files@ == old(files)@,
            pc@ == path@,
            forall|j: int| 0 <= j < i ==> !same_path((#[trigger] s[j]).0, path@, windows),
        decreases files.len() - i,
    {
        let fc = chars_of(files[i].path.as_str());
        if same_path_exec(&fc, &pc, windows) {
            assert(same_path(s[i as int].0, path@, windows));
            assert(path_index(s, path@, windows) == Some(i as int)) by {
                let k = path_index(s, path@, windows)->0;
                if k < i {
                    assert(!same_path(s[k].0, path@, windows));
                } else if k > i {
                }
            }
            let kept = files[i].path.clone();
            files.set(i, RecentFile { path: kept, opened_at: now });
            assert(recent_view(files@) =~= touch(s, path@, now, windows));
            return ;
        }
        i += 1;
    }
    files.push(RecentFile { path: string_of(&pc), opened_at: now });
    assert(recent_view(files@) =~= touch(s, path@, now, windows));
}

/// `files` in stable most-recent-first order.
fn sort_recent(files: &Vec<RecentFile>) -> (r: Vec<RecentFile>)
    ensures
        recent_view(r@) == sort_desc(recent_view(files@)),
{
    let ghost s = recent_view(files@);
    let mut out: Vec<RecentFile> = Vec::new();
    let mut i: usize = 0;
    assert(recent_view(out@) =~= sort_desc(s.take(0)));
    while i < files.len()
        invariant
            i <= files@.len(),
            s == recent_view(files@),
            recent_view(out@) == sort_desc(s.take(i as int)),
        decreases files.len() - i,
    {
        let x = RecentFile { path: files[i].path.clone(), opened_at: files[i].opened_at };
        assert(x@ == s[i as int]);
        let ghost o = recent_view(out@);
        let mut p: usize = 0;
        while p < out.len() && out[p].opened_at >= x.opened_at
            invariant
                p <= out@.len(),
                o == recent_view(out@),
                forall|j: int| 0 <= j < p ==> (#[trigger] o[j]).1 >= x.opened_at,
            decreases out.len() - p,
        {
            p += 1;
        }
        proof {
            lemma_first_older_is(o, x.opened_at, p as int);
            assert(s.take(i + 1).drop_last() =~= s.take(i as int));
            assert(s.take(i + 1).last() == s[i as int]);
        }
        out.insert(p, x);
        assert(recent_view(out@) =~= o.insert(p as int, s[i as int]));
        i += 1;
    }
    assert(s.take(i as int) =~= s);
    out
}

/// The recent files kept of `files`: newest first, at most a hundred (see
/// `newest_first`).
fn keep_newest(files: &Vec<RecentFile>) -> (r: Vec<RecentFile>)
    ensures
        recent_view(r@) == newest_first(recent_view(files@)),
{
    let mut sorted = sort_recent(files);
    let ghost o = recent_view(sorted@);
    sorted.truncate(100);
    assert(recent_view(sorted@) =~= newest_first(recent_view(files@)));
    sorted
}

impl Config {
    /// The last-used save folder recorded for `project_cwd`, if any.
    pub fn get_project_folder(&self, project_cwd: &str) -> (r: Option<&str>)
        ensures
            match r {
                Some(v) => lookup(self.project_folders@, project_cwd@) == Some(v@),
                None => lookup(self.project_folders@, project_cwd@) is None,
            },
    {
        match self.project_folders.get(project_cwd) {
            Some(s) => Some(s.as_str()),
            None => None,
        }
    }

    /// Records `last_save_dir` as the last-used save folder of `project_cwd`.
    /// (Writing the file afterwards is the caller's part.)
    pub fn set_project_folder(&mut self, project_cwd: &str, last_save_dir: &str)
        ensures
            final(self)@ == (ConfigView {
                project_folders: insert_pair(
                    old(self)@.project_folders,
                    project_cwd@,
                    last_save_dir@,
                ),
                ..old(self)@
            }),
    {
        let k = String::from_str(project_cwd);
        let v = String::from_str(last_save_dir);
        self.project_folders.insert(k, v);
    }

    /// Records that `path` was opened at `now`: the file's entry gets the
    /// new time (or a new entry is made), the list is put in stable
    /// most-recent-first order and cut to a hundred entries. Paths are
    /// compared part by part (see `same_path`), with the separators of a
    /// Windows host (`windows`) or of another host.
    pub fn add_recent_file_at(&mut self, path: &str, now: u64, windows: bool)
        ensures
            final(self)@.recent_files == newest_first(
                touch(old(self)@.recent_files, path@, now, windows),
            ),
            final(self)@ == (ConfigView { recent_files: final(self)@.recent_files, ..old(self)@ }),
    {
        let mut files: Vec<RecentFile> = Vec::new();
        std::mem::swap(&mut files, &mut self.recent_files);
        let ghost before = recent_view(files@);
        assert(before == old(self)@.recent_files);
        touch_exec(&mut files, path, now, windows);
        self.recent_files = keep_newest(&files);
    }

    /// Records that `path` was opened now, with the path rules of the host
    /// (see `add_recent_file_at`). (Writing the file afterwards is the
    /// caller's part.)
    pub fn add_recent_file(&mut self, path: &str)
        ensures
            exists|now: u64, windows: bool|
                final(self)@.recent_files == newest_first(
                    touch(old(self)@.recent_files, path@, now, windows),
                ),
            final(self)@ == (ConfigView { recent_files: final(self)@.recent_files, ..old(self)@ }),
    {
        let (now, _) = unix_time();
        self.add_recent_file_at(path, now, host_is_windows());
    }
}

// ---------------------------------------------------------------------------
// Writing
// ---------------------------------------------------------------------------

fn push_line(out: &mut Vec<char>, l: &str)
    ensures
        final(out)@ == old(out)@ + l@ + crate::config_write::nl(),
{
    push_str(out, l);
    out.push('\n');
}

fn push_bool(out: &mut Vec<char>, b: bool)
    ensures
        final(out)@ == old(out)@ + bool_text(b),
{
    if b {
        push_str(out, "true");
    } else {
        push_str(out, "false");
    }
}

fn push_folders(out: &mut Vec<char>, map: &ProjectFolders)
    ensures
        final(out)@ == old(out)@ + folders_json(map@),
{
    let n = map.len();
    if n == 0 {
        push_str(out, "{}");
        return;
    }
    push_str(out, "{\n");
    let ghost start = out@;
    let mut i: usize = 0;
    while i < n
        invariant
            n == map@.len(),
            i <= n,
            out@ == start + folder_lines(map@.take(i as int)),
        decreases n - i,
    {
        let ghost before = out@;
        if i > 0 {
            push_str(out, ",\n");
        }
        let (k, v) = map.entry(i);
        push_str(out, "    \"");
        let kc = chars_of(k.as_str());
        escape_into(out, kc.as_slice());
        push_str(out, "\": \"");
        let vc = chars_of(v.as_str());
        escape_into(out, vc.as_slice());
        push_str(out, "\"");
        proof {
            let t = map@.take(i + 1);
            assert(t.drop_last() =~= map@.take(i as int));
            assert(t.last() == map@[i as int]);
            if i == 0 {
                assert(folder_lines(map@.take(0)) =~= Seq::<char>::empty());
                assert(out@ =~= start + folder_entry(map@[i as int]));
            } else {
                assert(out@ =~= start + (folder_lines(map@.take(i as int)) + ",\n"@ + folder_entry(
                    map@[i as int],
                )));
            }
        }
        i += 1;
    }
    assert(map@.take(n as int) =~= map@);
    push_str(out, "\n  }");
}

fn push_recent(out: &mut Vec<char>, files: &[RecentFile])
    ensures
        final(out)@ == old(out)@ + recent_json(recent_view(files@)),
{
    let n = files.len();
    let ghost fv = recent_view(files@);
    if n == 0 {
        push_str(out, "[]");
        return;
    }
    push_str(out, "[\n");
    let ghost start = out@;
    let mut i: usize = 0;
    while i < n
        invariant
            n == files@.len() == fv.len(),
            fv == recent_view(files@),
            i <= n,
            out@ == start + recent_lines(fv.take(i as int)),
        decreases n - i,
    {
        if i > 0 {
            push_str(out, ",\n");
        }
        let f = &files[i];
        push_str(out, "    { \"path\": \"");
        let pc = chars_of(f.path.as_str());
        escape_into(out, pc.as_slice());
        push_str(out, "\", \"opened_at\": ");
        push_decimal(out, f.opened_at);
        push_str(out, " }");
        proof {
            let t = fv.take(i + 1);
            assert(t.drop_last() =~= fv.take(i as int));
            assert(t.last() == fv[i as int]);
            assert(fv[i as int] == (f.path@, f.opened_at));
            if i == 0 {
                assert(recent_lines(fv.take(0)) =~= Seq::<char>::empty());
                assert(out@ =~= start + recent_entry(fv[i as int]));
            } else {
                assert(out@ =~= start + (recent_lines(fv.take(i as int)) + ",\n"@ + recent_entry(
                    fv[i as int],
                )));
            }
        }
        i += 1;
    }
    assert(fv.take(n as int) =~= fv);
    push_str(out, "\n  ]");
}

fn push_part_a(out: &mut Vec<char>, c: &Config)
    ensures
        final(out)@ == old(out)@ + json_part_a(c@),
{
    push_line(out, "// OGEdit Configuration");
    push_line(out, "// Edit this file to customize your settings.");
    push_line(out, "// Lines starting with // are comments and will be ignored.");
    push_line(out, "{");
    push_line(out, "  // Enable word wrap for long lines (true/false, default: false)");
    push_str(out, "  \"word_wrap\": ");
    push_bool(out, c.word_wrap);
    push_line(out, ",");
    out.push('\n');
    push_line(out, "  // Use tabs for indentation instead of spaces (true/false, default: false)");
    push_str(out, "  \"indent_with_tabs\": ");
    push_bool(out, c.indent_with_tabs);
    push_line(out, ",");
    assert(out@ =~= old(out)@ + json_part_a(c@));
}

#[verifier::spinoff_prover]
#[verifier::rlimit(40)]
fn push_part_b(out: &mut Vec<char>, c: &Config, windows: bool)
    ensures
        final(out)@ == old(out)@ + json_part_b(c@, windows),
{
    out.push('\n');
    push_line(out, "  // Number of spaces per tab/indentation level (1-8, default: 4)");
    push_str(out, "  \"tab_size\": ");
    push_decimal(out, c.tab_size as u64);
    push_line(out, ",");
    out.push('\n');
    push_str(out, "  // Use Windows line endings CRLF (true) or Unix LF (false, default: ");
    push_bool(out, windows);
    push_line(out, ")");
    push_str(out, "  \"newline_crlf\": ");
    push_bool(out, c.newline_crlf);
    push_line(out, ",");
    out.push('\n');
    push_line(out, "  // Show line numbers in left margin (true/false, default: true)");
    push_str(out, "  \"line_numbers\": ");
    push_bool(out, c.line_numbers);
    push_line(out, ",");
    assert(out@ =~= old(out)@ + json_part_b(c@, windows));
}

#[verifier::spinoff_prover]
#[verifier::rlimit(40)]
fn push_part_c(out: &mut Vec<char>, c: &Config, windows: bool)
    ensures
        final(out)@ == old(out)@ + json_part_c(c@, windows),
{
    out.push('\n');
    push_line(out, "  // Highlight the current line (true/false, default: true)");
    push_str(out, "  \"line_highlight\": ");
    push_bool(out, c.line_highlight);
    push_line(out, ",");
    out.push('\n');
    push_str(out, "  // Add newline at end of file when saving (true/false, default: ");
    push_bool(out, !windows);
    push_line(out, ")");
    push_str(out, "  \"insert_final_newline\": ");
    push_bool(out, c.insert_final_newline);
    push_line(out, ",");
    out.push('\n');
    push_line(out, "  // Show vertical ruler at column, 0 to disable (0-255, default: 0)");
    push_str(out, "  \"ruler_column\": ");
    push_decimal(out, c.ruler_column as u64);
    push_line(out, ",");
    assert(out@ =~= old(out)@ + json_part_c(c@, windows));
}

fn push_part_d(out: &mut Vec<char>, c: &Config)
    ensures
        final(out)@ == old(out)@ + json_part_d(c@),
{
    out.push('\n');
    push_line(out, "  // Per-project last-used save folder (auto-managed, do not edit)");
    push_str(out, "  \"project_folders\": ");
    push_folders(out, &c.project_folders);
    push_line(out, ",");
    out.push('\n');
    push_line(out, "  // Recently opened files (auto-managed, do not edit)");
    push_str(out, "  \"recent_files\": ");
    push_recent(out, c.recent_files.as_slice());
    out.push('\n');
    push_line(out, "}");
    assert(out@ =~= old(out)@ + json_part_d(c@));
}

impl Config {
    /// The `project_folders` value as written to the file.
    pub fn project_folders_to_json(map: &ProjectFolders) -> (r: String)
        ensures
            r@ == folders_json(map@),
    {
        let mut out: Vec<char> = Vec::new();
        push_folders(&mut out, map);
        assert(out@ =~= folders_json(map@));
        string_of(out.as_slice())
    }

    /// The `recent_files` value as written to the file.
    pub fn recent_files_to_json(files: &[RecentFile]) -> (r: String)
        ensures
            r@ == recent_json(recent_view(files@)),
    {
        let mut out: Vec<char> = Vec::new();
        push_recent(&mut out, files);
        assert(out@ =~= recent_json(recent_view(files@)));
        string_of(out.as_slice())
    }

    /// The configuration file for this configuration, with the comments
    /// naming the defaults of a Windows host (`windows`) or of another host.
    pub fn to_json_for(&self, windows: bool) -> (r: String)
        ensures
            r@ == config_json(self@, windows),
    {
        let mut out: Vec<char> = Vec::new();
        push_part_a(&mut out, self);
        push_part_b(&mut out, self, windows);
        push_part_c(&mut out, self, windows);
        push_part_d(&mut out, self);
        assert(out@ =~= config_json(self@, windows));
        string_of(out.as_slice())
    }

    /// The configuration file for this configuration on this host.
    pub fn to_json(&self) -> (r: String)
        ensures
            r@ == config_json(self@, false) || r@ == config_json(self@, true),
    {
        self.to_json_for(host_is_windows())
    }
}

} // verus!
