use ogedit::dialogs::{
    editor_height_reduction, encoding_change_step, handle_save, handle_wants_close, handle_wants_reload, search_bar_step, statusbar_step,
    CloseChoice, CloseStep, EncodingAction, EncodingChange, EncodingStep, ReloadChoice, ReloadStep, SaveStep, SearchKind, StatusbarFlags, StatusbarStep, Wants,
};
use ogedit::editor_state::ReloadPrompt;

fn wants() -> Wants {
    Wants { close: true, save: false, exit: true, reload: true }
}

#[test]
fn close_without_document_drops_the_request() {
    let mut w = wants();
    assert_eq!(handle_wants_close(&mut w, None, CloseChoice::Save), CloseStep::NothingToClose);
    assert_eq!(w, Wants { close: false, ..wants() });
}

#[test]
fn clean_document_closes_at_once() {
    let mut w = wants();
    assert_eq!(handle_wants_close(&mut w, Some(false), CloseChoice::Pending), CloseStep::CloseClean);
    assert!(!w.close);
    assert!(w.exit);
}

#[test]
fn dirty_document_asks_and_follows_the_answer() {
    let mut w = wants();
    assert_eq!(handle_wants_close(&mut w, Some(true), CloseChoice::Pending), CloseStep::Ask);
    assert_eq!(w, wants());
    assert_eq!(handle_wants_close(&mut w, Some(true), CloseChoice::Save), CloseStep::Save);
    assert_eq!(w, Wants { save: true, ..wants() });
    let mut w = wants();
    assert_eq!(handle_wants_close(&mut w, Some(true), CloseChoice::Discard), CloseStep::Discard);
    assert_eq!(w, Wants { close: false, ..wants() });
    let mut w = wants();
    assert_eq!(handle_wants_close(&mut w, Some(true), CloseChoice::Cancel), CloseStep::Cancel);
    assert_eq!(w, Wants { close: false, exit: false, ..wants() });
}

#[test]
fn reload_steps() {
    let mut w = wants();
    assert_eq!(handle_wants_reload(&mut w, None, true, ReloadChoice::Reload), ReloadStep::NothingToReload);
    assert!(!w.reload);
    let mut w = wants();
    assert_eq!(handle_wants_reload(&mut w, Some(false), false, ReloadChoice::Pending), ReloadStep::ReloadNow);
    assert!(!w.reload);
    let mut w = wants();
    assert_eq!(
        handle_wants_reload(&mut w, Some(true), true, ReloadChoice::Pending),
        ReloadStep::Ask(ReloadPrompt::ConfirmBoth)
    );
    assert!(w.reload);
    assert_eq!(
        handle_wants_reload(&mut w, Some(true), false, ReloadChoice::Pending),
        ReloadStep::Ask(ReloadPrompt::ConfirmLocal)
    );
    assert_eq!(
        handle_wants_reload(&mut w, Some(false), true, ReloadChoice::Pending),
        ReloadStep::Ask(ReloadPrompt::ConfirmExternal)
    );
    assert_eq!(handle_wants_reload(&mut w, Some(false), true, ReloadChoice::Reload), ReloadStep::Reload);
    assert!(!w.reload);
    let mut w = wants();
    assert_eq!(handle_wants_reload(&mut w, Some(true), false, ReloadChoice::Cancel), ReloadStep::Cancel);
    assert_eq!(w, Wants { reload: false, ..wants() });
}

#[test]
fn save_requests() {
    let mut w = Wants { close: false, save: true, exit: false, reload: false };
    assert_eq!(handle_save(&mut w, None), SaveStep::NothingToSave);
    assert!(!w.save);
    let mut w = Wants { close: true, save: true, exit: false, reload: false };
    assert_eq!(handle_save(&mut w, Some(true)), SaveStep::Save);
    assert_eq!(w, Wants { close: true, save: false, exit: false, reload: false });
    let mut w = Wants { close: false, save: true, exit: false, reload: false };
    assert_eq!(handle_save(&mut w, Some(false)), SaveStep::PickPath);
    assert!(!w.save);
}

#[test]
fn search_bar_states() {
    assert_eq!(search_bar_step(SearchKind::Hidden, false, false, true), SearchKind::Hidden);
    assert_eq!(search_bar_step(SearchKind::Disabled, true, true, false), SearchKind::Disabled);
    assert_eq!(search_bar_step(SearchKind::Search, false, true, false), SearchKind::Disabled);
    assert_eq!(search_bar_step(SearchKind::Replace, true, false, false), SearchKind::Hidden);
    assert_eq!(search_bar_step(SearchKind::Replace, true, true, true), SearchKind::Hidden);
    assert_eq!(search_bar_step(SearchKind::Replace, true, true, false), SearchKind::Replace);
    assert_eq!(editor_height_reduction(SearchKind::Search), 4);
    assert_eq!(editor_height_reduction(SearchKind::Replace), 5);
    assert_eq!(editor_height_reduction(SearchKind::Hidden), 2);
    assert_eq!(editor_height_reduction(SearchKind::Disabled), 2);
}

#[test]
fn statusbar_requests() {
    let mut f = StatusbarFlags { focus: true, encoding_picker: true, indentation_picker: true };
    assert_eq!(
        statusbar_step(&mut f, false, true, true, true),
        StatusbarStep { steal_focus: false, convert_only: false }
    );
    assert_eq!(f, StatusbarFlags { focus: false, encoding_picker: false, indentation_picker: false });
    let mut f = StatusbarFlags { focus: true, encoding_picker: false, indentation_picker: false };
    assert_eq!(
        statusbar_step(&mut f, true, false, true, false),
        StatusbarStep { steal_focus: true, convert_only: true }
    );
    assert_eq!(f, StatusbarFlags { focus: false, encoding_picker: true, indentation_picker: false });
    assert_eq!(
        statusbar_step(&mut f, true, true, false, true),
        StatusbarStep { steal_focus: false, convert_only: false }
    );
    assert_eq!(f, StatusbarFlags { focus: false, encoding_picker: true, indentation_picker: true });
}

#[test]
fn encoding_dialog_waits_for_an_answer() {
    let mut wants = EncodingChange::Convert;
    let mut needle = "utf".to_string();
    let mut results = Some(vec![1usize, 2]);
    let r = encoding_change_step(&mut wants, &mut needle, &mut results, true, false, true, false, false, false);
    assert_eq!(r, EncodingStep { action: EncodingAction::Keep, done: false, escaped: false });
    assert_eq!(wants, EncodingChange::Convert);
    assert_eq!(needle, "utf");
    assert_eq!(results, Some(vec![1usize, 2]));
}

#[test]
fn encoding_dialog_reopen_saves_a_dirty_file_first() {
    let mut wants = EncodingChange::Reopen;
    let mut needle = "utf".to_string();
    let mut results = Some(vec![3usize]);
    let r = encoding_change_step(&mut wants, &mut needle, &mut results, true, false, true, true, false, true);
    assert_eq!(r, EncodingStep { action: EncodingAction::Reopen { save_first: true }, done: true, escaped: false });
    assert_eq!(wants, EncodingChange::Off);
    assert_eq!(needle, "");
    assert_eq!(results, None);

    let mut wants = EncodingChange::Reopen;
    let r = encoding_change_step(&mut wants, &mut needle, &mut results, true, false, true, false, false, true);
    assert_eq!(r.action, EncodingAction::Reopen { save_first: false });
}

#[test]
fn encoding_dialog_converts_a_document_without_a_file() {
    let mut wants = EncodingChange::Reopen;
    let mut needle = String::new();
    let mut results = None;
    let r = encoding_change_step(&mut wants, &mut needle, &mut results, true, false, false, true, false, true);
    assert_eq!(r.action, EncodingAction::Convert);
    let mut wants = EncodingChange::Convert;
    let r = encoding_change_step(&mut wants, &mut needle, &mut results, true, false, true, true, false, true);
    assert_eq!(r.action, EncodingAction::Convert);
}

#[test]
fn encoding_dialog_closes_on_escape_or_without_encoding() {
    let mut wants = EncodingChange::Convert;
    let mut needle = "x".to_string();
    let mut results = None;
    let r = encoding_change_step(&mut wants, &mut needle, &mut results, true, false, true, false, true, false);
    assert_eq!(r, EncodingStep { action: EncodingAction::Keep, done: true, escaped: true });
    assert_eq!(wants, EncodingChange::Off);
    let mut wants = EncodingChange::Convert;
    let r = encoding_change_step(&mut wants, &mut needle, &mut results, false, true, false, false, false, false);
    assert_eq!(r, EncodingStep { action: EncodingAction::Keep, done: true, escaped: false });
    assert_eq!(wants, EncodingChange::Off);
}
