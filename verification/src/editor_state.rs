//! The editor's bookkeeping between frames: what the debug log is told
//! about cursor, selection and idle content, the ring of the last error
//! messages, and how a reload request is answered.
use vstd::prelude::*;

use crate::goto::Point;

verus! {

/// Where a mouse click landed.
#[derive(Debug, Clone, Copy, PartialEq, Eq, Structural)]
pub enum ClickTarget {
    Unknown,
    Editor,
    Menubar,
    Statusbar,
    Dialog,
    FilePicker,
}

/// The name of a click target in the log.
pub open spec fn click_target_name(t: ClickTarget) -> Seq<char> {
    match t {
        ClickTarget::Unknown => "unknown"@,
        ClickTarget::Editor => "editor"@,
        ClickTarget::Menubar => "menubar"@,
        ClickTarget::Statusbar => "statusbar"@,
        ClickTarget::Dialog => "dialog"@,
        ClickTarget::FilePicker => "filepicker"@,
    }
}

impl ClickTarget {
    /// The name of the target in the log.
    pub fn as_str(&self) -> (r: &'static str)
        ensures
            r@ == click_target_name(*self),
    {
        match self {
            ClickTarget::Unknown => "unknown",
            ClickTarget::Editor => "editor",
            ClickTarget::Menubar => "menubar",
            ClickTarget::Statusbar => "statusbar",
            ClickTarget::Dialog => "dialog",
            ClickTarget::FilePicker => "filepicker",
        }
    }
}

impl Default for ClickTarget {
    fn default() -> (r: Self)
        ensures
            r == ClickTarget::Unknown,
    {
        ClickTarget::Unknown
    }
}

/// The selection as the log last saw it.
#[derive(Debug, Clone, Copy, PartialEq, Eq, Structural)]
pub struct SelectionState {
    pub has_selection: bool,
    pub start: Point,
    pub end: Point,
    pub start_offset: usize,
    pub end_offset: usize,
}

/// No selection.
pub open spec fn no_selection() -> SelectionState {
    SelectionState {
        has_selection: false,
        start: Point { x: 0, y: 0 },
        end: Point { x: 0, y: 0 },
        start_offset: 0,
        end_offset: 0,
    }
}

impl Default for SelectionState {
    fn default() -> (r: Self)
        ensures
            r == no_selection(),
    {
        SelectionState {
            has_selection: false,
            start: Point { x: 0, y: 0 },
            end: Point { x: 0, y: 0 },
            start_offset: 0,
            end_offset: 0,
        }
    }
}

/// What the log last saw of the active document, to tell what changed.
#[derive(Debug, Clone, Copy, PartialEq, Eq, Structural)]
pub struct LoggingTracker {
    pub cursor_pos: Point,
    pub cursor_offset: usize,
    pub text_generation: u32,
    pub selection: SelectionState,
    /// Set when a mouse click is processed, cleared after logging
    pub last_input_was_click: bool,
    /// Where the last click landed
    pub last_click_target: ClickTarget,
    /// When the last content snapshot was logged (ms since program start)
    pub last_snapshot_time_ms: u64,
    /// The buffer generation at the last change
    pub last_change_generation: u32,
    /// When the content last changed (ms since program start)
    pub last_change_time_ms: u64,
}

/// A tracker that has seen nothing yet.
pub open spec fn fresh_tracker() -> LoggingTracker {
    LoggingTracker {
        cursor_pos: Point { x: 0, y: 0 },
        cursor_offset: 0,
        text_generation: 0,
        selection: no_selection(),
        last_input_was_click: false,
        last_click_target: ClickTarget::Unknown,
        last_snapshot_time_ms: 0,
        last_change_generation: 0,
        last_change_time_ms: 0,
    }
}

impl Default for LoggingTracker {
    fn default() -> (r: Self)
        ensures
            r == fresh_tracker(),
    {
        LoggingTracker {
            cursor_pos: Point { x: 0, y: 0 },
            cursor_offset: 0,
            text_generation: 0,
            selection: SelectionState::default(),
            last_input_was_click: false,
            last_click_target: ClickTarget::Unknown,
            last_snapshot_time_ms: 0,
            last_change_generation: 0,
            last_change_time_ms: 0,
        }
    }
}

/// How the cursor moved, as the log names it: a click (with its target) or
/// navigation.
pub open spec fn move_method(was_click: bool, target: ClickTarget) -> Seq<char> {
    if was_click {
        match target {
            ClickTarget::Editor => "click:editor"@,
            ClickTarget::Menubar => "click:menubar"@,
            ClickTarget::Statusbar => "click:statusbar"@,
            ClickTarget::Dialog => "click:dialog"@,
            ClickTarget::FilePicker => "click:filepicker"@,
            ClickTarget::Unknown => "click"@,
        }
    } else {
        "navigation"@
    }
}

/// The method of a click names where it landed: `click:` and the target's
/// name, or `click` alone when the target is unknown; any other move is
/// navigation. Distinct targets have distinct names, so a logged method
/// tells the target.
pub proof fn lemma_move_method_names_target(t: ClickTarget, u: ClickTarget)
    ensures
        t != ClickTarget::Unknown ==> move_method(true, t) == "click:"@ + click_target_name(t),
        move_method(true, ClickTarget::Unknown) == "click"@,
        move_method(false, t) == "navigation"@,
        t != u ==> click_target_name(t) != click_target_name(u),
        t != u ==> move_method(true, t) != move_method(true, u),
{
    reveal_strlit("click:");
    reveal_strlit("click");
    reveal_strlit("unknown");
    reveal_strlit("editor");
    reveal_strlit("menubar");
    reveal_strlit("statusbar");
    reveal_strlit("dialog");
    reveal_strlit("filepicker");
    reveal_strlit("click:editor");
    reveal_strlit("click:menubar");
    reveal_strlit("click:statusbar");
    reveal_strlit("click:dialog");
    reveal_strlit("click:filepicker");
    if t != ClickTarget::Unknown {
        assert(move_method(true, t) =~= "click:"@ + click_target_name(t));
    }
    if t != u {
        let a = click_target_name(t);
        let b = click_target_name(u);
        if a.len() == b.len() {
            assert(a[0] != b[0]);
        }
        let x = move_method(true, t);
        let y = move_method(true, u);
        if x.len() == y.len() {
            if x.len() > 6 {
                assert(x[6] != y[6]);
            }
        }
    }
}

fn move_method_exec(was_click: bool, target: ClickTarget) -> (r: &'static str)
    ensures
        r@ == move_method(was_click, target),
{
    if was_click {
        match target {
            ClickTarget::Editor => "click:editor",
            ClickTarget::Menubar => "click:menubar",
            ClickTarget::Statusbar => "click:statusbar",
            ClickTarget::Dialog => "click:dialog",
            ClickTarget::FilePicker => "click:filepicker",
            ClickTarget::Unknown => "click",
        }
    } else {
        "navigation"
    }
}

/// A cursor move to log.
pub struct CursorMove {
    pub from: Point,
    pub to: Point,
    pub from_offset: usize,
    pub to_offset: usize,
    pub method: &'static str,
}

/// What to log about the selection.
#[derive(Debug, Clone, Copy, PartialEq, Eq, Structural)]
pub enum SelectionLog {
    /// Nothing to log.
    Unchanged,
    /// A new or changed selection, to log with its content.
    Selected(SelectionState),
    /// The selection went away.
    Cleared,
}

/// What one frame logs.
pub struct FrameLog {
    pub cursor_move: Option<CursorMove>,
    pub selection: SelectionLog,
}

/// Whether the cursor moved while the text stayed the same.
pub open spec fn cursor_moved(t: LoggingTracker, pos: Point, offset: usize, generation: u32) -> bool {
    (pos != t.cursor_pos || offset != t.cursor_offset) && generation == t.text_generation
}

/// What to log about a selection `sel` after `t`.
pub open spec fn selection_log(t: LoggingTracker, sel: SelectionState) -> SelectionLog {
    if sel != t.selection {
        if sel.has_selection {
            SelectionLog::Selected(sel)
        } else if t.selection.has_selection {
            SelectionLog::Cleared
        } else {
            SelectionLog::Unchanged
        }
    } else {
        SelectionLog::Unchanged
    }
}

/// The tracker after a frame that saw `pos`, `offset`, `generation` and
/// `sel`: it remembers them and forgets the click.
pub open spec fn after_frame(
    t: LoggingTracker,
    pos: Point,
    offset: usize,
    generation: u32,
    sel: SelectionState,
) -> LoggingTracker {
    LoggingTracker {
        cursor_pos: pos,
        cursor_offset: offset,
        text_generation: generation,
        selection: sel,
        last_input_was_click: false,
        last_click_target: ClickTarget::Unknown,
        ..t
    }
}

/// Decides what one frame logs about the active document: a cursor move
/// (when the text did not change), a new selection or a cleared one; then
/// remembers what it saw.
pub fn log_state_changes(
    tracker: &mut LoggingTracker,
    cursor_pos: Point,
    cursor_offset: usize,
    generation: u32,
    selection: SelectionState,
) -> (r: FrameLog)
    ensures
        cursor_moved(*old(tracker), cursor_pos, cursor_offset, generation) <==> r.cursor_move is Some,
        r.cursor_move matches Some(m) ==> m.from == old(tracker).cursor_pos && m.to == cursor_pos
            && m.from_offset == old(tracker).cursor_offset && m.to_offset == cursor_offset
            && m.method@ == move_method(
            old(tracker).last_input_was_click,
            old(tracker).last_click_target,
        ),
        r.selection == selection_log(*old(tracker), selection),
        *final(tracker) == after_frame(*old(tracker), cursor_pos, cursor_offset, generation, selection),
{
    let moved = (cursor_pos != tracker.cursor_pos || cursor_offset != tracker.cursor_offset)
        && generation == tracker.text_generation;
    let cursor_move = if moved {
        Some(
            CursorMove {
                from: tracker.cursor_pos,
                to: cursor_pos,
                from_offset: tracker.cursor_offset,
                to_offset: cursor_offset,
                method: move_method_exec(tracker.last_input_was_click, tracker.last_click_target),
            },
        )
    } else {
        None
    };
    tracker.last_input_was_click = false;
    tracker.last_click_target = ClickTarget::Unknown;
    let sel_log = if selection != tracker.selection {
        let l = if selection.has_selection {
            SelectionLog::Selected(selection)
        } else if tracker.selection.has_selection {
            SelectionLog::Cleared
        } else {
            SelectionLog::Unchanged
        };
        tracker.selection = selection;
        l
    } else {
        SelectionLog::Unchanged
    };
    tracker.text_generation = generation;
    tracker.cursor_pos = cursor_pos;
    tracker.cursor_offset = cursor_offset;
    FrameLog { cursor_move, selection: sel_log }
}

/// A frame seen twice logs nothing the second time.
pub proof fn lemma_frame_logged_once(
    t: LoggingTracker,
    pos: Point,
    offset: usize,
    generation: u32,
    sel: SelectionState,
)
    ensures
        !cursor_moved(after_frame(t, pos, offset, generation, sel), pos, offset, generation),
        selection_log(after_frame(t, pos, offset, generation, sel), sel) == SelectionLog::Unchanged,
{
}

/// How long the content must stay unchanged before a snapshot is logged.
pub open spec fn snapshot_idle_ms() -> nat {
    1000
}

/// When the content last changed, once a frame with `generation` at `now`
/// has been seen.
pub open spec fn change_time(t: LoggingTracker, generation: u32, now: u64) -> u64 {
    if generation != t.last_change_generation {
        now
    } else {
        t.last_change_time_ms
    }
}

/// Whether a snapshot is due at `now`: the content changed, has been idle a
/// second since, and no snapshot was logged since that change plus a
/// second.
pub open spec fn snapshot_due(t: LoggingTracker, generation: u32, now: u64) -> bool {
    let c = change_time(t, generation, now);
    c > 0 && now >= c + snapshot_idle_ms() && t.last_snapshot_time_ms < c + snapshot_idle_ms()
}

/// The tracker after the snapshot check at `now`.
pub open spec fn after_snapshot_check(t: LoggingTracker, generation: u32, now: u64) -> LoggingTracker {
    LoggingTracker {
        last_change_generation: generation,
        last_change_time_ms: change_time(t, generation, now),
        last_snapshot_time_ms: if snapshot_due(t, generation, now) {
            now
        } else {
            t.last_snapshot_time_ms
        },
        ..t
    }
}

/// Decides whether a snapshot of the active document's content is logged
/// now (after a second of idle following a change), and records the change
/// and the snapshot.
pub fn log_periodic_content_snapshot(tracker: &mut LoggingTracker, generation: u32, now_ms: u64) -> (r:
    bool)
    requires
        change_time(*old(tracker), generation, now_ms) > 0 ==> change_time(
            *old(tracker),
            generation,
            now_ms,
        ) + 1000 <= u64::MAX,
    ensures
        r == snapshot_due(*old(tracker), generation, now_ms),
        *final(tracker) == after_snapshot_check(*old(tracker), generation, now_ms),
{
    if generation != tracker.last_change_generation {
        tracker.last_change_generation = generation;
        tracker.last_change_time_ms = now_ms;
    }
    if tracker.last_change_time_ms > 0 && now_ms >= tracker.last_change_time_ms + 1000
        && tracker.last_snapshot_time_ms < tracker.last_change_time_ms + 1000 {
        tracker.last_snapshot_time_ms = now_ms;
        true
    } else {
        false
    }
}

/// One snapshot per change: once a snapshot is logged, no other is due
/// until the content changes again.
pub proof fn lemma_snapshot_once(t: LoggingTracker, generation: u32, now: u64, later: u64)
    requires
        snapshot_due(t, generation, now),
    ensures
        !snapshot_due(after_snapshot_check(t, generation, now), generation, later),
{
}

// ---------------------------------------------------------------------------
// The error log
// ---------------------------------------------------------------------------

/// How many error messages are kept.
pub open spec fn error_log_size() -> nat {
    10
}

/// The last ten error messages, in a ring.
pub struct ErrorLog {
    entries: Vec<String>,
    index: usize,
    count: usize,
}

impl View for ErrorLog {
    type V = Seq<Seq<char>>;

    /// The messages shown, oldest first.
    closed spec fn view(&self) -> Seq<Seq<char>> {
        Seq::new(
            self.count as nat,
            |i: int| self.entries@[(self.index + 10 - self.count + i) % 10]@,
        )
    }
}

/// The messages after `msg` is added to `shown`: appended, and the oldest
/// dropped when ten are shown already.
pub open spec fn errors_after_add(shown: Seq<Seq<char>>, msg: Seq<char>) -> Seq<Seq<char>> {
    if shown.len() < error_log_size() {
        shown.push(msg)
    } else {
        shown.drop_first().push(msg)
    }
}

impl ErrorLog {
    #[verifier::type_invariant]
    closed spec fn inv(self) -> bool {
        &&& self.entries@.len() == 10
        &&& self.index < 10
        &&& self.count <= 10
        &&& forall|i: int|
            0 <= i < self.count ==> #[trigger] self.entries@[(self.index + 10 - self.count + i)
                % 10]@.len() > 0
    }

    /// The text of the ring's ten slots, shown or not.
    pub closed spec fn slots(&self) -> Seq<Seq<char>> {
        Seq::new(self.entries@.len(), |k: int| self.entries@[k]@)
    }

    /// The slot the next message is written to.
    pub closed spec fn write_index(&self) -> nat {
        self.index as nat
    }

    /// How many of the slots are shown: the last ones written.
    pub closed spec fn shown_count(&self) -> nat {
        self.count as nat
    }

    /// An empty error log.
    pub fn new() -> (r: ErrorLog)
        ensures
            r@.len() == 0,
            r.slots() == Seq::new(10, |k: int| Seq::<char>::empty()),
            r.write_index() == 0,
            r.shown_count() == 0,
    {
        let mut entries: Vec<String> = Vec::new();
        let mut i: usize = 0;
        while i < 10
            invariant
                i <= 10,
                entries@.len() == i,
                forall|k: int| 0 <= k < i ==> (#[trigger] entries@[k])@.len() == 0,
            decreases 10 - i,
        {
            entries.push(String::new());
            i = i + 1;
        }
        let r = ErrorLog { entries, index: 0, count: 0 };
        assert forall|k: int| 0 <= k < 10 implies #[trigger] r.slots()[k] == Seq::<char>::empty() by {
            assert(r.slots()[k] =~= Seq::<char>::empty());
        }
        assert(r.slots() =~= Seq::new(10, |k: int| Seq::<char>::empty()));
        r
    }

    /// The number of messages shown.
    pub fn len(&self) -> (r: usize)
        ensures
            r == self@.len(),
    {
        self.count
    }

    /// Whether no message is shown.
    pub fn is_empty(&self) -> (r: bool)
        ensures
            r == (self@.len() == 0),
    {
        self.count == 0
    }

    /// The shown messages, oldest first.
    pub fn messages(&self) -> (r: Vec<String>)
        ensures
            r@.len() == self@.len(),
            forall|i: int| 0 <= i < r@.len() ==> #[trigger] r@[i]@ == self@[i],
    {
        proof {
            use_type_invariant(self);
        }
        let off = self.index + 10 - self.count;
        let mut out: Vec<String> = Vec::new();
        let mut i: usize = 0;
        while i < self.count
            invariant
                i <= self.count <= 10,
                self.index < 10,
                self.entries@.len() == 10,
                off == self.index + 10 - self.count,
                out@.len() == i,
                forall|k: int| 0 <= k < i ==> #[trigger] out@[k]@ == self@[k],
            decreases self.count - i,
        {
            let idx = (off + i) % 10;
            let m = self.entries[idx].clone();
            out.push(m);
            i = i + 1;
        }
        out
    }

    /// Dismisses the shown messages.
    pub fn dismiss(&mut self)
        ensures
            final(self)@.len() == 0,
    {
        proof {
            use_type_invariant(&*self);
        }
        self.count = 0;
    }
}

/// Records an error message; an empty one is ignored. Returns whether it
/// was recorded. A recorded message is written to the next slot of the
/// ring, which then moves on by one; at most ten are shown.
pub fn error_log_add(log: &mut ErrorLog, msg: String) -> (r: bool)
    ensures
        r == (msg@.len() > 0),
        r ==> final(log)@ == errors_after_add(old(log)@, msg@),
        !r ==> final(log)@ == old(log)@,
        r ==> final(log).slots() == old(log).slots().update(old(log).write_index() as int, msg@),
        r ==> final(log).write_index() == (old(log).write_index() + 1) % 10,
        r ==> final(log).shown_count() == if old(log).shown_count() < 10 {
            old(log).shown_count() + 1
        } else {
            10
        },
        !r ==> final(log).slots() == old(log).slots() && final(log).write_index() == old(
            log,
        ).write_index() && final(log).shown_count() == old(log).shown_count(),
{
    log.add(msg)
}

/// The messages shown after each of `msgs` is added in turn.
pub open spec fn errors_after_all(shown: Seq<Seq<char>>, msgs: Seq<Seq<char>>) -> Seq<Seq<char>>
    decreases msgs.len(),
{
    if msgs.len() == 0 {
        shown
    } else {
        errors_after_add(errors_after_all(shown, msgs.drop_last()), msgs.last())
    }
}

/// Starting from an empty log, the log shows the last ten messages added,
/// oldest first.
pub proof fn lemma_error_log_keeps_last(msgs: Seq<Seq<char>>)
    ensures
        errors_after_all(Seq::empty(), msgs) == msgs.skip(
            if msgs.len() > 10 {
                msgs.len() - 10
            } else {
                0
            },
        ),
    decreases msgs.len(),
{
    if msgs.len() > 0 {
        let m = msgs.drop_last();
        lemma_error_log_keeps_last(m);
        if m.len() < 10 {
            assert(m.skip(0) =~= m);
            assert(msgs.skip(0) =~= m.push(msgs.last()));
        } else {
            assert(m.skip(m.len() - 10).drop_first().push(msgs.last()) =~= msgs.skip(
                msgs.len() - 10,
            ));
        }
    } else {
        assert(msgs.skip(0) =~= msgs);
    }
}

/// Where the `k`-th shown message lies after one more is added at slot
/// `index`: the last one at `index`, the others where they were.
proof fn lemma_ring_slot(index: int, count: int, k: int)
    requires
        0 <= index < 10,
        0 <= count <= 10,
        0 <= k < (if count < 10 {
            count + 1
        } else {
            10
        }),
    ensures
        ({
            let new_count = if count < 10 {
                count + 1
            } else {
                10
            };
            let p = ((index + 1) % 10 + 10 - new_count + k) % 10;
            let k2 = if count < 10 {
                k
            } else {
                k + 1
            };
            &&& 0 <= p < 10
            &&& k == new_count - 1 ==> p == index
            &&& k < new_count - 1 ==> 0 <= k2 < count && (index + 10 - count + k2) % 10 == p
                && p != index
        }),
{
}

impl ErrorLog {
    fn add(&mut self, msg: String) -> (r: bool)
        ensures
            r == (msg@.len() > 0),
            r ==> final(self)@ == errors_after_add(old(self)@, msg@),
            !r ==> final(self)@ == old(self)@,
            r ==> final(self).slots() == old(self).slots().update(
                old(self).write_index() as int,
                msg@,
            ),
            r ==> final(self).write_index() == (old(self).write_index() + 1) % 10,
            r ==> final(self).shown_count() == if old(self).shown_count() < 10 {
                old(self).shown_count() + 1
            } else {
                10
            },
            !r ==> final(self).slots() == old(self).slots() && final(self).write_index() == old(
                self,
            ).write_index() && final(self).shown_count() == old(self).shown_count(),
    {
        proof {
            use_type_invariant(&*self);
        }
        if msg.as_str().is_empty() {
            return false;
        }
        let ghost before = self@;
        let ghost old_index = self.index;
        let ghost old_count = self.count;
        let ghost old_entries = self.entries@;
        let ghost m = msg@;
        let i = self.index;
        let mut entries: Vec<String> = Vec::new();
        let mut j: usize = 0;
        while j < 10
            invariant
                j <= 10,
                i < 10,
                m == msg@,
                self.entries@ == old_entries,
                old_entries.len() == 10,
                entries@.len() == j,
                forall|k: int| 0 <= k < j ==> #[trigger] entries@[k]@ == (if k == i {
                    m
                } else {
                    old_entries[k]@
                }),
            decreases 10 - j,
        {
            if j == i {
                entries.push(msg.clone());
            } else {
                entries.push(self.entries[j].clone());
            }
            j = j + 1;
        }
        let new_index = (i + 1) % 10;
        let new_count = if self.count < 10 {
            self.count + 1
        } else {
            10
        };
        proof {
            assert forall|k: int| 0 <= k < new_count implies #[trigger] entries@[(new_index + 10
                - new_count + k) % 10]@.len() > 0 by {
                lemma_ring_slot(old_index as int, old_count as int, k);
                if k < new_count - 1 {
                    let k2 = if old_count < 10 {
                        k
                    } else {
                        k + 1
                    };
                    assert(old_entries[(old_index + 10 - old_count + k2) % 10]@.len() > 0);
                }
            }
        }
        *self = ErrorLog { entries, index: new_index, count: new_count };
        proof {
            let after = self@;
            let expect = errors_after_add(before, m);
            assert forall|k: int| 0 <= k < after.len() implies after[k] == expect[k] by {
                lemma_ring_slot(old_index as int, old_count as int, k);
            }
            assert(after =~= expect);
            assert(self.slots() =~= Seq::new(old_entries.len(), |k: int| old_entries[k]@).update(
                old_index as int,
                m,
            ));
        }
        true
    }
}

// ---------------------------------------------------------------------------
// Reload
// ---------------------------------------------------------------------------

/// How a request to reload the active document is answered.
#[derive(Debug, Clone, Copy, PartialEq, Eq, Structural)]
pub enum ReloadPrompt {
    /// Nothing would be lost: reload at once.
    ReloadNow,
    /// Local edits and an external change: confirm, discarding the edits.
    ConfirmBoth,
    /// Local edits only: confirm, discarding them.
    ConfirmLocal,
    /// An external change only: confirm the reload.
    ConfirmExternal,
}

/// The answer to a reload request, by whether the document has unsaved
/// edits and whether its file changed on disk.
pub fn reload_prompt(is_dirty: bool, file_changed: bool) -> (r: ReloadPrompt)
    ensures
        r == (if !is_dirty && !file_changed {
            ReloadPrompt::ReloadNow
        } else if is_dirty && file_changed {
            ReloadPrompt::ConfirmBoth
        } else if is_dirty {
            ReloadPrompt::ConfirmLocal
        } else {
            ReloadPrompt::ConfirmExternal
        }),
{
    if !is_dirty && !file_changed {
        ReloadPrompt::ReloadNow
    } else if is_dirty && file_changed {
        ReloadPrompt::ConfirmBoth
    } else if is_dirty {
        ReloadPrompt::ConfirmLocal
    } else {
        ReloadPrompt::ConfirmExternal
    }
}

} // verus!
