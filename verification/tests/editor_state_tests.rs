use ogedit::editor_state::{
    error_log_add, log_periodic_content_snapshot, log_state_changes, reload_prompt, ClickTarget, ErrorLog,
    LoggingTracker, ReloadPrompt, SelectionLog, SelectionState,
};
use ogedit::goto::Point;

fn pt(x: isize, y: isize) -> Point {
    Point { x, y }
}

#[test]
fn click_target_names() {
    assert_eq!(ClickTarget::Unknown.as_str(), "unknown");
    assert_eq!(ClickTarget::Editor.as_str(), "editor");
    assert_eq!(ClickTarget::Menubar.as_str(), "menubar");
    assert_eq!(ClickTarget::Statusbar.as_str(), "statusbar");
    assert_eq!(ClickTarget::Dialog.as_str(), "dialog");
    assert_eq!(ClickTarget::FilePicker.as_str(), "filepicker");
    assert_eq!(ClickTarget::default(), ClickTarget::Unknown);
}

#[test]
fn cursor_move_is_logged_once_with_click_method() {
    let mut t = LoggingTracker::default();
    t.last_input_was_click = true;
    t.last_click_target = ClickTarget::Editor;
    let sel = SelectionState::default();
    let log = log_state_changes(&mut t, pt(3, 2), 17, 0, sel);
    let m = log.cursor_move.expect("cursor moved");
    assert_eq!(m.from, pt(0, 0));
    assert_eq!(m.to, pt(3, 2));
    assert_eq!(m.from_offset, 0);
    assert_eq!(m.to_offset, 17);
    assert_eq!(m.method, "click:editor");
    assert_eq!(log.selection, SelectionLog::Unchanged);
    assert!(!t.last_input_was_click);
    assert_eq!(t.last_click_target, ClickTarget::Unknown);
    // The same frame again logs nothing.
    let again = log_state_changes(&mut t, pt(3, 2), 17, 0, sel);
    assert!(again.cursor_move.is_none());
    assert_eq!(again.selection, SelectionLog::Unchanged);
}

#[test]
fn navigation_and_text_edits() {
    let mut t = LoggingTracker::default();
    let sel = SelectionState::default();
    let log = log_state_changes(&mut t, pt(1, 0), 1, 0, sel);
    assert_eq!(log.cursor_move.expect("moved").method, "navigation");
    // A move that comes with a text change is not a cursor move.
    let log = log_state_changes(&mut t, pt(2, 0), 2, 1, sel);
    assert!(log.cursor_move.is_none());
    assert_eq!(t.text_generation, 1);
    assert_eq!(t.cursor_pos, pt(2, 0));
    assert_eq!(t.cursor_offset, 2);
}

#[test]
fn selection_changes_are_logged() {
    let mut t = LoggingTracker::default();
    let sel = SelectionState { has_selection: true, start: pt(0, 0), end: pt(4, 0), start_offset: 0, end_offset: 4 };
    let log = log_state_changes(&mut t, pt(4, 0), 4, 0, sel);
    assert_eq!(log.selection, SelectionLog::Selected(sel));
    let log = log_state_changes(&mut t, pt(4, 0), 4, 0, sel);
    assert_eq!(log.selection, SelectionLog::Unchanged);
    let none = SelectionState::default();
    let log = log_state_changes(&mut t, pt(4, 0), 4, 0, none);
    assert_eq!(log.selection, SelectionLog::Cleared);
    let log = log_state_changes(&mut t, pt(4, 0), 4, 0, none);
    assert_eq!(log.selection, SelectionLog::Unchanged);
}

#[test]
fn content_snapshot_after_a_second_of_idle() {
    let mut t = LoggingTracker::default();
    // No change seen yet: nothing to log.
    assert!(!log_periodic_content_snapshot(&mut t, 0, 5000));
    // A change at 6000 ms.
    assert!(!log_periodic_content_snapshot(&mut t, 1, 6000));
    assert_eq!(t.last_change_time_ms, 6000);
    assert!(!log_periodic_content_snapshot(&mut t, 1, 6999));
    assert!(log_periodic_content_snapshot(&mut t, 1, 7000));
    assert_eq!(t.last_snapshot_time_ms, 7000);
    // Only once per change.
    assert!(!log_periodic_content_snapshot(&mut t, 1, 9000));
    // A new change starts the count again.
    assert!(!log_periodic_content_snapshot(&mut t, 2, 9500));
    assert!(log_periodic_content_snapshot(&mut t, 2, 10500));
}

#[test]
fn error_log_keeps_the_last_ten() {
    let mut log = ErrorLog::new();
    assert!(log.is_empty());
    assert!(!error_log_add(&mut log, String::new()));
    assert!(log.is_empty());
    for i in 0..12 {
        assert!(error_log_add(&mut log, format!("error {}", i)));
    }
    assert_eq!(log.len(), 10);
    let shown = log.messages();
    let expected: Vec<String> = (2..12).map(|i| format!("error {}", i)).collect();
    assert_eq!(shown, expected);
    log.dismiss();
    assert!(log.is_empty());
    assert!(log.messages().is_empty());
    assert!(error_log_add(&mut log, "again".to_string()));
    assert_eq!(log.messages(), vec!["again".to_string()]);
}

#[test]
fn reload_prompt_cases() {
    assert_eq!(reload_prompt(false, false), ReloadPrompt::ReloadNow);
    assert_eq!(reload_prompt(true, true), ReloadPrompt::ConfirmBoth);
    assert_eq!(reload_prompt(true, false), ReloadPrompt::ConfirmLocal);
    assert_eq!(reload_prompt(false, true), ReloadPrompt::ConfirmExternal);
}
