//! What the editor does with a request to save, close or reload the active
//! document: whether it asks the user first, and what the user's answer
//! leads to; and the state of the search bar and the status bar's
//! requests. Drawing the dialogs is left to the caller, which reports the
//! answer of each frame.
use vstd::prelude::*;

use crate::editor_state::{reload_prompt, ReloadPrompt};

verus! {

/// The requests the user interface has pending.
#[derive(Debug, Clone, Copy, PartialEq, Eq, Structural)]
pub struct Wants {
    pub close: bool,
    pub save: bool,
    pub exit: bool,
    pub reload: bool,
}

/// The answer to the unsaved-changes dialog in one frame.
#[derive(Debug, Clone, Copy, PartialEq, Eq, Structural)]
pub enum CloseChoice {
    /// No answer yet.
    Pending,
    Save,
    Discard,
    Cancel,
}

/// What a close request leads to in one frame.
#[derive(Debug, Clone, Copy, PartialEq, Eq, Structural)]
pub enum CloseStep {
    /// There is no active document: the request is dropped.
    NothingToClose,
    /// The active document has no unsaved changes: it is closed at once.
    CloseClean,
    /// The unsaved-changes dialog stays open.
    Ask,
    /// Save first; the close request stays pending.
    Save,
    /// Close the active document, discarding its changes.
    Discard,
    /// The close, and an exit waiting on it, are called off.
    Cancel,
}

/// The step for a close request, given whether the active document has
/// unsaved changes (`None`: no active document) and the dialog's answer.
pub open spec fn close_step_spec(active_dirty: Option<bool>, choice: CloseChoice) -> CloseStep {
    match active_dirty {
        None => CloseStep::NothingToClose,
        Some(false) => CloseStep::CloseClean,
        Some(true) => match choice {
            CloseChoice::Pending => CloseStep::Ask,
            CloseChoice::Save => CloseStep::Save,
            CloseChoice::Discard => CloseStep::Discard,
            CloseChoice::Cancel => CloseStep::Cancel,
        },
    }
}

/// The pending requests after a close step.
pub open spec fn wants_after_close(w: Wants, step: CloseStep) -> Wants {
    match step {
        CloseStep::Ask => w,
        CloseStep::Save => Wants { save: true, ..w },
        CloseStep::Cancel => Wants { close: false, exit: false, ..w },
        _ => Wants { close: false, ..w },
    }
}

/// Whether a close step closes the active document.
pub open spec fn closes_document(step: CloseStep) -> bool {
    step == CloseStep::CloseClean || step == CloseStep::Discard
}

/// Handles a pending close request for one frame: decides the step and
/// updates the pending requests. The caller closes the active document
/// when the step says so, and keeps the dialog on screen for `Ask`.
pub fn handle_wants_close(wants: &mut Wants, active_dirty: Option<bool>, choice: CloseChoice) -> (r:
    CloseStep)
    ensures
        r == close_step_spec(active_dirty, choice),
        *final(wants) == wants_after_close(*old(wants), r),
{
    let step = match active_dirty {
        None => CloseStep::NothingToClose,
        Some(false) => CloseStep::CloseClean,
        Some(true) => match choice {
            CloseChoice::Pending => CloseStep::Ask,
            CloseChoice::Save => CloseStep::Save,
            CloseChoice::Discard => CloseStep::Discard,
            CloseChoice::Cancel => CloseStep::Cancel,
        },
    };
    match step {
        CloseStep::Ask => {},
        CloseStep::Save => {
            wants.save = true;
        },
        CloseStep::Cancel => {
            wants.close = false;
            wants.exit = false;
        },
        _ => {
            wants.close = false;
        },
    }
    step
}

/// A document with unsaved changes is never closed without the user's
/// word: only a discard answer closes it.
pub proof fn lemma_dirty_needs_discard(choice: CloseChoice)
    ensures
        closes_document(close_step_spec(Some(true), choice)) <==> (choice == CloseChoice::Discard),
{
}

/// What a save request leads to.
#[derive(Debug, Clone, Copy, PartialEq, Eq, Structural)]
pub enum SaveStep {
    /// There is no active document.
    NothingToSave,
    /// Write the active document to its file.
    Save,
    /// The document has no file yet: ask for one with the Save As picker.
    PickPath,
}

/// Handles a pending save request, given whether the active document has
/// a file (`None`: no active document); the request is done either way.
pub fn handle_save(wants: &mut Wants, active_has_path: Option<bool>) -> (r: SaveStep)
    ensures
        r == match active_has_path {
            None => SaveStep::NothingToSave,
            Some(true) => SaveStep::Save,
            Some(false) => SaveStep::PickPath,
        },
        *final(wants) == (Wants { save: false, ..*old(wants) }),
{
    wants.save = false;
    match active_has_path {
        None => SaveStep::NothingToSave,
        Some(true) => SaveStep::Save,
        Some(false) => SaveStep::PickPath,
    }
}

/// The answer to the reload dialog in one frame.
#[derive(Debug, Clone, Copy, PartialEq, Eq, Structural)]
pub enum ReloadChoice {
    /// No answer yet.
    Pending,
    Reload,
    Cancel,
}

/// What a reload request leads to in one frame.
#[derive(Debug, Clone, Copy, PartialEq, Eq, Structural)]
pub enum ReloadStep {
    /// There is no active document: the request is dropped.
    NothingToReload,
    /// Nothing would be lost: reload at once.
    ReloadNow,
    /// The dialog stays open, in the given form.
    Ask(ReloadPrompt),
    /// The user confirmed: reload.
    Reload,
    /// The user called the reload off.
    Cancel,
}

/// The step for a reload request, given whether the active document has
/// unsaved changes (`None`: no active document), whether its file changed
/// on disk, and the dialog's answer.
pub open spec fn reload_step_spec(
    active_dirty: Option<bool>,
    file_changed: bool,
    choice: ReloadChoice,
) -> ReloadStep {
    match active_dirty {
        None => ReloadStep::NothingToReload,
        Some(dirty) => if !dirty && !file_changed {
            ReloadStep::ReloadNow
        } else {
            match choice {
                ReloadChoice::Pending => ReloadStep::Ask(
                    if dirty && file_changed {
                        ReloadPrompt::ConfirmBoth
                    } else if dirty {
                        ReloadPrompt::ConfirmLocal
                    } else {
                        ReloadPrompt::ConfirmExternal
                    },
                ),
                ReloadChoice::Reload => ReloadStep::Reload,
                ReloadChoice::Cancel => ReloadStep::Cancel,
            }
        },
    }
}

/// Handles a pending reload request for one frame: decides the step and
/// keeps the request pending only while the dialog is open. The caller
/// reloads the file for `ReloadNow` and `Reload`.
pub fn handle_wants_reload(
    wants: &mut Wants,
    active_dirty: Option<bool>,
    file_changed: bool,
    choice: ReloadChoice,
) -> (r: ReloadStep)
    ensures
        r == reload_step_spec(active_dirty, file_changed, choice),
        final(wants).reload == (r is Ask && old(wants).reload),
        final(wants).close == old(wants).close,
        final(wants).save == old(wants).save,
        final(wants).exit == old(wants).exit,
{
    let step = match active_dirty {
        None => ReloadStep::NothingToReload,
        Some(dirty) => {
            let prompt = reload_prompt(dirty, file_changed);
            match prompt {
                ReloadPrompt::ReloadNow => ReloadStep::ReloadNow,
                _ => match choice {
                    ReloadChoice::Pending => ReloadStep::Ask(prompt),
                    ReloadChoice::Reload => ReloadStep::Reload,
                    ReloadChoice::Cancel => ReloadStep::Cancel,
                },
            }
        },
    };
    match step {
        ReloadStep::Ask(_) => {},
        _ => {
            wants.reload = false;
        },
    }
    step
}

/// A document whose edits would be lost is never reloaded without the
/// user's word.
pub proof fn lemma_dirty_reload_needs_confirm(file_changed: bool, choice: ReloadChoice)
    ensures
        (reload_step_spec(Some(true), file_changed, choice) == ReloadStep::ReloadNow
            || reload_step_spec(Some(true), file_changed, choice) == ReloadStep::Reload) <==> (choice
            == ReloadChoice::Reload),
{
}

// ---------------------------------------------------------------------------
// The search bar
// ---------------------------------------------------------------------------

/// The state of the search bar.
#[derive(Debug, Clone, Copy, PartialEq, Eq, Structural)]
pub enum SearchKind {
    /// Not shown.
    Hidden,
    /// Not shown, and not available: text search could not start.
    Disabled,
    /// Shown with the search field.
    Search,
    /// Shown with the search and replace fields.
    Replace,
}

/// Whether the search bar is drawn.
pub open spec fn search_shown(kind: SearchKind) -> bool {
    kind == SearchKind::Search || kind == SearchKind::Replace
}

/// The search bar's state after a frame: when it is shown, it becomes
/// disabled if text search cannot start (`search_ready` false), hides when
/// there is no document or the user closed it (Escape or the close
/// button), and stays as it is otherwise.
pub fn search_bar_step(kind: SearchKind, search_ready: bool, has_document: bool, closed: bool) -> (r:
    SearchKind)
    ensures
        r == if !search_shown(kind) {
            kind
        } else if !search_ready {
            SearchKind::Disabled
        } else if !has_document || closed {
            SearchKind::Hidden
        } else {
            kind
        },
{
    match kind {
        SearchKind::Hidden | SearchKind::Disabled => kind,
        _ => if !search_ready {
            SearchKind::Disabled
        } else if !has_document || closed {
            SearchKind::Hidden
        } else {
            kind
        },
    }
}

/// How many rows the editor gives up to the bars: the menu and status bars,
/// and the search bar's fields when it is shown.
pub fn editor_height_reduction(kind: SearchKind) -> (r: u32)
    ensures
        r == match kind {
            SearchKind::Search => 4u32,
            SearchKind::Replace => 5u32,
            _ => 2u32,
        },
{
    match kind {
        SearchKind::Search => 4,
        SearchKind::Replace => 5,
        _ => 2,
    }
}

// ---------------------------------------------------------------------------
// The status bar
// ---------------------------------------------------------------------------

/// The status bar's pending requests: focus, and the two pickers.
#[derive(Debug, Clone, Copy, PartialEq, Eq, Structural)]
pub struct StatusbarFlags {
    pub focus: bool,
    pub encoding_picker: bool,
    pub indentation_picker: bool,
}

/// What the status bar does in a frame besides its flags.
#[derive(Debug, Clone, Copy, PartialEq, Eq, Structural)]
pub struct StatusbarStep {
    /// Move the focus to the status bar.
    pub steal_focus: bool,
    /// The encoding can only be converted: the document has no file to
    /// reopen.
    pub convert_only: bool,
}

/// One frame of the status bar's requests: without a document, every
/// request is dropped; with one, a focus request is taken up, and a click
/// on the encoding or indentation button opens its picker. The encoding
/// picker of a document without a file can only convert.
pub fn statusbar_step(
    flags: &mut StatusbarFlags,
    has_document: bool,
    has_path: bool,
    encoding_clicked: bool,
    indentation_clicked: bool,
) -> (r: StatusbarStep)
    ensures
        !has_document ==> *final(flags) == (StatusbarFlags {
            focus: false,
            encoding_picker: false,
            indentation_picker: false,
        }) && r == (StatusbarStep { steal_focus: false, convert_only: false }),
        has_document ==> *final(flags) == (StatusbarFlags {
            focus: false,
            encoding_picker: old(flags).encoding_picker || encoding_clicked,
            indentation_picker: old(flags).indentation_picker || indentation_clicked,
        }) && r == (StatusbarStep {
            steal_focus: old(flags).focus,
            convert_only: (old(flags).encoding_picker || encoding_clicked) && !has_path,
        }),
{
    if !has_document {
        flags.focus = false;
        flags.encoding_picker = false;
        flags.indentation_picker = false;
        return StatusbarStep { steal_focus: false, convert_only: false };
    }
    let steal = flags.focus;
    flags.focus = false;
    flags.encoding_picker = flags.encoding_picker || encoding_clicked;
    flags.indentation_picker = flags.indentation_picker || indentation_clicked;
    StatusbarStep { steal_focus: steal, convert_only: flags.encoding_picker && !has_path }
}

// ---------------------------------------------------------------------------
// The encoding dialog
// ---------------------------------------------------------------------------

/// Which encoding change the user asked for.
#[derive(Debug, Clone, Copy, PartialEq, Eq, Structural)]
pub enum EncodingChange {
    /// The dialog is not open.
    Off,
    /// Convert the text to another encoding.
    Convert,
    /// Read the file again in another encoding.
    Reopen,
}

/// What the encoding dialog does with the active document in a frame.
#[derive(Debug, Clone, Copy, PartialEq, Eq, Structural)]
pub enum EncodingAction {
    /// Nothing changes.
    Keep,
    /// The buffer takes the chosen encoding; the file is not touched.
    Convert,
    /// The file is read again in the chosen encoding, saved first when
    /// `save_first` (its buffer has unsaved changes).
    Reopen { save_first: bool },
}

/// The outcome of a frame of the encoding dialog.
#[derive(Debug, Clone, Copy, PartialEq, Eq, Structural)]
pub struct EncodingStep {
    pub action: EncodingAction,
    /// The dialog closes: the request, the typed needle and the listed
    /// encodings are dropped.
    pub done: bool,
    /// The dialog was closed with Escape (a "DIALOG_CLOSE" message).
    pub escaped: bool,
}

/// The action for an encoding chosen in the dialog (`chosen`), for a
/// request to reopen (`reopen`) or convert, on the active document
/// (`has_document`) with or without a file (`has_path`) and unsaved changes
/// (`dirty`). A reopen needs a file; without one the text is converted.
pub open spec fn encoding_action(
    reopen: bool,
    chosen: bool,
    has_document: bool,
    has_path: bool,
    dirty: bool,
) -> EncodingAction {
    if !chosen || !has_document {
        EncodingAction::Keep
    } else if reopen && has_path {
        EncodingAction::Reopen { save_first: dirty }
    } else {
        EncodingAction::Convert
    }
}

/// One frame of the encoding dialog. `encoding_empty`: the active document
/// has no encoding (or there is none); `escaped`: the user closed the
/// dialog; `chosen`: the user picked an encoding. The dialog is done when
/// there is no encoding to change, or on Escape or a choice; then the
/// request, the needle and the listed encodings are dropped.
pub fn encoding_change_step(
    wants: &mut EncodingChange,
    needle: &mut String,
    results: &mut Option<Vec<usize>>,
    has_document: bool,
    encoding_empty: bool,
    has_path: bool,
    dirty: bool,
    escaped: bool,
    chosen: bool,
) -> (r: EncodingStep)
    ensures
        r.action == encoding_action(
            *old(wants) == EncodingChange::Reopen,
            chosen,
            has_document,
            has_path,
            dirty,
        ),
        r.done == (encoding_empty || escaped || chosen),
        r.escaped == escaped,
        r.done ==> *final(wants) == EncodingChange::Off && final(needle)@.len() == 0
            && *final(results) is None,
        !r.done ==> *final(wants) == *old(wants) && *final(needle) == *old(needle)
            && *final(results) == *old(results),
{
    let reopen = match *wants {
        EncodingChange::Reopen => true,
        _ => false,
    };
    let action = if !chosen || !has_document {
        EncodingAction::Keep
    } else if reopen && has_path {
        EncodingAction::Reopen { save_first: dirty }
    } else {
        EncodingAction::Convert
    };
    let done = encoding_empty || escaped || chosen;
    if done {
        *wants = EncodingChange::Off;
        *needle = String::new();
        *results = None;
    }
    EncodingStep { action, done, escaped }
}

} // verus!
