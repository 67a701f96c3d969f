use ogedit::documents::{reread_cursor_target, ruler_for_filename, Document, DocumentManager};
use ogedit::config::RecentFile;
use ogedit::goto::Point;
use ogedit::watch::FileProbe;

fn opened(name: &str, id: u64) -> Document<&'static str, u64> {
    Document {
        buffer: "text",
        path: Some(format!("/tmp/{}", name)),
        dir: Some("/tmp".to_string()),
        filename: name.to_string(),
        file_id: Some(id),
        new_file_counter: 0,
        last_modified: Some(5),
    }
}

#[test]
fn untitled_names_count_up() {
    let mut docs: DocumentManager<&'static str, u64> = DocumentManager::new();
    assert_eq!(docs.len(), 0);
    assert!(docs.active().is_none());
    let d = docs.add_untitled("a");
    assert_eq!(d.filename, "Untitled-1.txt");
    assert_eq!(d.new_file_counter, 1);
    assert_eq!(d.buffer, "a");
    assert!(d.path.is_none());
    docs.add_untitled("b");
    let d = docs.add_untitled("c");
    assert_eq!(d.filename, "Untitled-3.txt");
    assert_eq!(docs.len(), 3);
    assert_eq!(docs.max_new_file_counter(), 3);
    // Closing the newest does not reuse numbers below the largest.
    docs.update_active(|d| d.new_file_counter == 1);
    docs.remove_active();
    let d = docs.add_untitled("d");
    assert_eq!(d.filename, "Untitled-4.txt");
}

#[test]
fn gen_untitled_name_keeps_other_fields() {
    let mut docs: DocumentManager<&'static str, u64> = DocumentManager::new();
    docs.add_untitled("x");
    let mut doc = opened("a.txt", 9);
    docs.gen_untitled_name(&mut doc);
    assert_eq!(doc.filename, "Untitled-2.txt");
    assert_eq!(doc.new_file_counter, 2);
    assert_eq!(doc.path.as_deref(), Some("/tmp/a.txt"));
    assert_eq!(doc.file_id, Some(9));
}

#[test]
fn update_active_moves_to_front() {
    let mut docs: DocumentManager<&'static str, u64> = DocumentManager::new();
    docs.add_opened(opened("a", 1), false);
    docs.add_opened(opened("b", 2), false);
    docs.add_opened(opened("c", 3), false);
    assert_eq!(docs.active().unwrap().filename, "c");
    assert!(docs.update_active(|d| d.file_id == Some(1)));
    assert_eq!(docs.active().unwrap().filename, "a");
    assert!(!docs.update_active(|d| d.file_id == Some(42)));
    assert_eq!(docs.active().unwrap().filename, "a");
    docs.remove_active();
    assert_eq!(docs.active().unwrap().filename, "c");
    docs.remove_active();
    assert_eq!(docs.active().unwrap().filename, "b");
    docs.remove_active();
    assert!(docs.active().is_none());
    docs.remove_active();
    assert_eq!(docs.len(), 0);
}

#[test]
fn is_path_open_checks_every_document() {
    let mut docs: DocumentManager<&'static str, u64> = DocumentManager::new();
    docs.add_untitled("u");
    docs.add_opened(opened("one.txt", 1), true);
    docs.add_opened(opened("two.txt", 2), false);
    assert!(docs.is_path_open("/tmp/one.txt"));
    assert!(docs.is_path_open("/tmp/two.txt"));
    assert!(!docs.is_path_open("/tmp/three.txt"));
    assert!(!docs.is_path_open(""));
}

#[test]
fn is_path_open_compares_paths_part_by_part() {
    let mut docs: DocumentManager<&'static str, u64> = DocumentManager::new_for(false);
    docs.add_opened(opened("one.txt", 1), true);
    assert!(docs.is_path_open("/tmp//one.txt"));
    assert!(docs.is_path_open("/tmp/./one.txt/"));
    assert!(!docs.is_path_open("tmp/one.txt"));
    assert!(!docs.is_path_open("/tmp\\one.txt"));
    let mut win: DocumentManager<&'static str, u64> = DocumentManager::new_for(true);
    win.add_opened(opened("one.txt", 1), true);
    assert!(win.is_path_open("\\tmp\\one.txt"));
}

#[test]
fn opening_replaces_a_pristine_untitled_document() {
    let mut docs: DocumentManager<&'static str, u64> = DocumentManager::new();
    docs.add_untitled("u");
    docs.add_opened(opened("f.txt", 1), false);
    assert_eq!(docs.len(), 1);
    assert_eq!(docs.active().unwrap().filename, "f.txt");
    // An edited untitled document stays.
    let mut docs: DocumentManager<&'static str, u64> = DocumentManager::new();
    docs.add_untitled("u");
    docs.add_opened(opened("f.txt", 1), true);
    assert_eq!(docs.len(), 2);
    // A document with a file stays.
    docs.add_opened(opened("g.txt", 2), false);
    assert_eq!(docs.len(), 3);
}

#[test]
fn active_mut_changes_the_active_document() {
    let mut docs: DocumentManager<&'static str, u64> = DocumentManager::new();
    assert!(docs.active_mut().is_none());
    docs.add_opened(opened("a", 1), false);
    docs.active_mut().unwrap().last_modified = Some(77);
    assert_eq!(docs.active().unwrap().last_modified, Some(77));
}

#[test]
fn file_change_needs_a_path_and_a_new_time() {
    let doc = opened("a", 1);
    assert!(!doc.has_file_changed_on_disk(FileProbe::Modified(5)));
    assert!(doc.has_file_changed_on_disk(FileProbe::Modified(6)));
    assert!(!doc.has_file_changed_on_disk(FileProbe::NotFound));
    assert!(!doc.has_file_changed_on_disk(FileProbe::NoTime));
    assert!(!doc.has_file_changed_on_disk(FileProbe::Failed));
    let mut no_time = opened("b", 2);
    no_time.last_modified = None;
    assert!(!no_time.has_file_changed_on_disk(FileProbe::Modified(6)));
    let mut no_path = opened("c", 3);
    no_path.path = None;
    assert!(!no_path.has_file_changed_on_disk(FileProbe::Modified(6)));
}

#[test]
fn reread_follows_the_cursor_line() {
    let at = Point { x: 4, y: 10 };
    // One line still holds the text: go there.
    assert_eq!(reread_cursor_target(at, Some("fn main() {"), &[3], 20), Point { x: 4, y: 3 });
    // Several do: the closest, the first of equally close ones.
    assert_eq!(reread_cursor_target(at, Some("}"), &[2, 9, 14, 30], 40), Point { x: 4, y: 9 });
    assert_eq!(reread_cursor_target(at, Some("}"), &[8, 12], 40), Point { x: 4, y: 8 });
    assert_eq!(reread_cursor_target(at, Some("}"), &[12, 8], 40), Point { x: 4, y: 12 });
    // None does, or the line was empty, or there was no line: keep the line
    // number within the new text.
    assert_eq!(reread_cursor_target(at, Some("gone"), &[], 5), Point { x: 4, y: 4 });
    assert_eq!(reread_cursor_target(at, Some(""), &[1], 50), Point { x: 4, y: 10 });
    assert_eq!(reread_cursor_target(at, None, &[1], 0), Point { x: 4, y: 0 });
    assert_eq!(reread_cursor_target(Point { x: 0, y: -3 }, None, &[], 5), Point { x: 0, y: 0 });
}

#[test]
fn commit_messages_get_a_ruler() {
    assert_eq!(ruler_for_filename("COMMIT_EDITMSG"), 72);
    assert_eq!(ruler_for_filename("commit_editmsg"), 0);
    assert_eq!(ruler_for_filename("main.rs"), 0);
}

#[test]
fn recent_files_offered_exist_and_are_closed() {
    let mut docs: DocumentManager<&'static str, u64> = DocumentManager::new();
    docs.add_opened(opened("open.txt", 1), false);
    let recent = vec![
        RecentFile { path: "/tmp/open.txt".to_string(), opened_at: 9 },
        RecentFile { path: "/tmp/a.txt".to_string(), opened_at: 8 },
        RecentFile { path: "/tmp/gone.txt".to_string(), opened_at: 7 },
        RecentFile { path: "/tmp/b.txt".to_string(), opened_at: 6 },
    ];
    let shown = docs.recent_to_show(&recent, &[true, true, false, true]);
    assert_eq!(shown, vec!["/tmp/a.txt".to_string(), "/tmp/b.txt".to_string()]);
    assert!(docs.recent_to_show(&[], &[]).is_empty());
}

#[test]
fn closing_the_active_document_gives_its_log_line() {
    let mut docs: DocumentManager<&'static str, u64> = DocumentManager::new();
    assert_eq!(docs.close_active(false), None);
    docs.add_opened(opened("a.txt", 1), false);
    docs.add_opened(opened("b\"c.txt", 2), false);
    assert_eq!(docs.close_active(true), Some("FILE_CLOSE: \"b\\\"c.txt\" (unsaved changes discarded)".to_string()));
    assert_eq!(docs.len(), 1);
    assert_eq!(docs.close_active(false), Some("FILE_CLOSE: \"a.txt\"".to_string()));
    assert_eq!(docs.len(), 0);
}
